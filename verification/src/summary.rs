//! The two summary charts of a set of benchmarks, planned down to what a drawing backend
//! needs: a comparison of functions over input size, and a violin for each benchmark.

use crate::distribution::{
    is_positive_range, is_row_of, no_positive_support, positive_range, violin_rows, ViolinRow,
};
use crate::model::{AxisScale, Benchmark, BenchmarkId, PlotError, ValueType};
use crate::grouping::{grouped, names_of};
use crate::palette::{color_of, comparison_color, Rgb};
use crate::series::{
    all_estimated, all_numbered, is_peak, is_series_of, line_comparison_series_data, Series,
};
use crate::text::{comparison_title, escaped, input_label, input_suffix, violin_title};
use vstd::prelude::*;

verus! {

/// One line of a comparison chart.
#[derive(Debug)]
pub struct Line {
    /// The points, and the name that the legend shows if there is one.
    pub series: Series,
    /// The colour of the line and of its markers.
    pub color: Rgb,
}

/// A comparison chart: the typical time of each function over the size of its input.
#[derive(Debug)]
pub struct LineComparison {
    pub title: String,
    /// The label of the input axis.
    pub input_label: String,
    /// How both axes are divided.
    pub axis_scale: AxisScale,
    /// Where the benchmark stands whose typical estimate is the greatest. The unit of the
    /// time axis is chosen for that estimate, and every line is scaled to that unit.
    pub peak: Option<usize>,
    /// One line for each function, in the order in which the functions are first met.
    pub lines: Vec<Line>,
}

/// A violin chart: the density of the measured times of each benchmark.
#[derive(Debug)]
pub struct Violin {
    pub title: String,
    /// How the time axis is divided. The rows are always evenly spaced.
    pub axis_scale: AxisScale,
    /// The least support value above zero.
    pub lowest: i64,
    /// The greatest support value above zero. The unit of the time axis is chosen for the
    /// middle between the two, and every curve is scaled to that unit.
    pub highest: i64,
    /// One row for each benchmark, the last benchmark first.
    pub rows: Vec<ViolinRow>,
}

/// Plans the comparison chart of `all_benchmarks`.
///
/// Every benchmark must have a typical estimate and a numeric input. The first benchmark
/// without an estimate is reported; if there is none, the first without an input.
pub fn line_comparison(
    title: &str,
    all_benchmarks: &[(&BenchmarkId, &Benchmark)],
    value_type: ValueType,
    axis_scale: AxisScale,
) -> (result: Result<LineComparison, PlotError>)
    ensures
        match result {
            Ok(chart) => {
                &&& all_estimated(all_benchmarks@)
                &&& all_numbered(all_benchmarks@)
                &&& chart.title@ == escaped(title@) + ": Comparison"@
                &&& chart.input_label@ == "Input"@ + input_suffix(value_type)
                &&& chart.axis_scale == axis_scale
                &&& is_peak(all_benchmarks@, chart.peak)
                &&& chart.lines.len() == grouped(names_of(all_benchmarks@)).len()
                &&& forall|g: int|
                    0 <= g < chart.lines.len() ==> {
                        &&& is_series_of(
                            all_benchmarks@,
                            grouped(names_of(all_benchmarks@))[g],
                            (#[trigger] chart.lines[g]).series,
                        )
                        &&& chart.lines[g].color == color_of(g)
                    }
            },
            Err(PlotError::MissingTypical { index }) => {
                &&& index < all_benchmarks.len()
                &&& all_benchmarks[index as int].1.typical is None
                &&& forall|j: int| 0 <= j < index ==> (#[trigger] all_benchmarks[j]).1.typical is Some
            },
            Err(PlotError::MissingInput { index }) => {
                &&& all_estimated(all_benchmarks@)
                &&& index < all_benchmarks.len()
                &&& all_benchmarks[index as int].0.value is None
                &&& forall|j: int| 0 <= j < index ==> (#[trigger] all_benchmarks[j]).0.value is Some
            },
            Err(PlotError::EmptyRange) => false,
        },
{
    let (peak, data) = match line_comparison_series_data(all_benchmarks) {
        Ok(found) => found,
        Err(e) => {
            return Err(e);
        },
    };
    let ghost wanted = grouped(names_of(all_benchmarks@));
    let ghost given = data@;
    let mut lines: Vec<Line> = Vec::new();
    for series in it: data
        invariant
            it.seq() == given,
            lines.len() == it.index(),
            forall|g: int|
                0 <= g < lines.len() ==> {
                    &&& (#[trigger] lines[g]).series == given[g]
                    &&& lines[g].color == color_of(g)
                },
    {
        let number = lines.len();
        lines.push(Line { series, color: comparison_color(number) });
    }
    Ok(
        LineComparison {
            title: comparison_title(title),
            input_label: input_label(value_type),
            axis_scale,
            peak,
            lines,
        },
    )
}

/// Plans the violin chart of `all_curves`: each benchmark with the support of its density
/// curve.
///
/// Some curve must have a support value above zero, or there is no range to choose the
/// unit from.
pub fn violin(
    title: &str,
    all_curves: &[(&BenchmarkId, &Vec<i64>)],
    axis_scale: AxisScale,
) -> (result: Result<Violin, PlotError>)
    ensures
        match result {
            Ok(chart) => {
                &&& chart.title@ == escaped(title@) + ": Violin plot"@
                &&& chart.axis_scale == axis_scale
                &&& is_positive_range(all_curves@, chart.lowest, chart.highest)
                &&& chart.rows.len() == all_curves.len()
                &&& forall|i: int|
                    0 <= i < chart.rows.len() ==> is_row_of(all_curves@, i, #[trigger] chart.rows[i])
            },
            Err(PlotError::EmptyRange) => no_positive_support(all_curves@),
            Err(_) => false,
        },
{
    let (lowest, highest) = match positive_range(all_curves) {
        Ok(found) => found,
        Err(e) => {
            return Err(e);
        },
    };
    Ok(
        Violin {
            title: violin_title(title),
            axis_scale,
            lowest,
            highest,
            rows: violin_rows(all_curves),
        },
    )
}

} // verus!
