//! The rows of a violin chart, and the range of what the violins show.

use crate::model::{BenchmarkId, PlotError};
use crate::text::{escape_underscores, escaped};
use vstd::prelude::*;

verus! {

/// Where a violin may reach across its row, in hundredths of a row's height, counted from
/// the edge of the chart at which the rows begin.
#[derive(Clone, Copy, Debug, PartialEq, Eq)]
pub struct Band {
    /// Where the violin ends on one side when its density is greatest.
    pub low: u128,
    /// The line about which the violin is drawn.
    pub centre: u128,
    /// Where the violin ends on the other side when its density is greatest.
    pub high: u128,
}

/// The height of one row, in hundredths.
pub const ROW_HEIGHT: u128 = 100;

/// How far a violin reaches from its centre where its density is greatest, in hundredths
/// of a row's height.
pub const HALF_WIDTH: u128 = 45;

/// The band of the row with the given number: centred in the middle of the row, and
/// reaching 45 hundredths to either side.
pub open spec fn band_at(row: int) -> Band {
    Band {
        low: (100 * row + 5) as u128,
        centre: (100 * row + 50) as u128,
        high: (100 * row + 95) as u128,
    }
}

/// The band of the row with the given number.
pub fn band_of(row: usize) -> (band: Band)
    ensures
        band == band_at(row as int),
{
    let centre: u128 = (row as u128) * ROW_HEIGHT + ROW_HEIGHT / 2;
    Band { low: centre - HALF_WIDTH, centre, high: centre + HALF_WIDTH }
}

/// One violin of the chart.
#[derive(Debug)]
pub struct ViolinRow {
    /// Where the benchmark stands in the input.
    pub position: usize,
    /// The name written beside the row.
    pub label: String,
    /// Where the violin may reach.
    pub band: Band,
}

/// `row` is row number `i` of the chart of `curves`: the rows go through the benchmarks
/// from the last to the first.
pub open spec fn is_row_of(curves: Seq<(&BenchmarkId, &Vec<i64>)>, i: int, row: ViolinRow) -> bool {
    &&& row.position == curves.len() - 1 - i
    &&& row.label@ == escaped(curves[curves.len() - 1 - i].0.title@)
    &&& row.band == band_at(i)
}

/// The rows of a violin chart, one for each benchmark, the last benchmark first.
pub fn violin_rows(all_curves: &[(&BenchmarkId, &Vec<i64>)]) -> (rows: Vec<ViolinRow>)
    ensures
        rows.len() == all_curves.len(),
        forall|i: int| 0 <= i < rows.len() ==> is_row_of(all_curves@, i, #[trigger] rows[i]),
{
    let n = all_curves.len();
    let mut rows: Vec<ViolinRow> = Vec::new();
    let mut i: usize = 0;
    while i < n
        invariant
            n == all_curves.len(),
            i <= n,
            rows.len() == i,
            forall|k: int| 0 <= k < i ==> is_row_of(all_curves@, k, #[trigger] rows[k]),
        decreases n - i,
    {
        let position = n - 1 - i;
        let label = escape_underscores(all_curves[position].0.as_title());
        rows.push(ViolinRow { position, label, band: band_of(i) });
        i += 1;
    }
    rows
}

/// Point `p` of curve `c` lies in `curves`.
pub open spec fn in_curves(curves: Seq<(&BenchmarkId, &Vec<i64>)>, c: int, p: int) -> bool {
    0 <= c < curves.len() && 0 <= p < curves[c].1.len()
}

/// The support value at point `p` of curve `c`.
pub open spec fn support_at(curves: Seq<(&BenchmarkId, &Vec<i64>)>, c: int, p: int) -> i64 {
    curves[c].1[p]
}

/// `value` is a support value of some curve.
pub open spec fn is_support(curves: Seq<(&BenchmarkId, &Vec<i64>)>, value: i64) -> bool {
    exists|c: int, p: int| in_curves(curves, c, p) && #[trigger] support_at(curves, c, p) == value
}

/// No curve has a support value above zero.
pub open spec fn no_positive_support(curves: Seq<(&BenchmarkId, &Vec<i64>)>) -> bool {
    forall|c: int, p: int| in_curves(curves, c, p) ==> #[trigger] support_at(curves, c, p) <= 0
}

/// `lowest` and `highest` are the least and the greatest of the support values above zero.
pub open spec fn is_positive_range(
    curves: Seq<(&BenchmarkId, &Vec<i64>)>,
    lowest: i64,
    highest: i64,
) -> bool {
    &&& 0 < lowest <= highest
    &&& is_support(curves, lowest)
    &&& is_support(curves, highest)
    &&& forall|c: int, p: int|
        in_curves(curves, c, p) && #[trigger] support_at(curves, c, p) > 0 ==> lowest
            <= support_at(curves, c, p) <= highest
}

/// Point `p` of curve `c` comes before point `q` of curve `d` when the curves are gone
/// through in order, each from its first point.
pub open spec fn scanned_before(c: int, p: int, d: int, q: int) -> bool {
    c < d || (c == d && p < q)
}

/// What is known of the range when the scan has come to point `q` of curve `d`.
pub open spec fn range_up_to(
    curves: Seq<(&BenchmarkId, &Vec<i64>)>,
    d: int,
    q: int,
    range: Option<(i64, i64)>,
) -> bool {
    match range {
        None => forall|c: int, p: int|
            in_curves(curves, c, p) && scanned_before(c, p, d, q) ==> #[trigger] support_at(
                curves,
                c,
                p,
            ) <= 0,
        Some((lowest, highest)) => {
            &&& 0 < lowest <= highest
            &&& is_support(curves, lowest)
            &&& is_support(curves, highest)
            &&& forall|c: int, p: int|
                in_curves(curves, c, p) && scanned_before(c, p, d, q) && #[trigger] support_at(
                    curves,
                    c,
                    p,
                ) > 0 ==> lowest <= support_at(curves, c, p) <= highest
        },
    }
}

/// The least and the greatest support value above zero over all curves. Values at or
/// below zero do not count: what the curves show is a time or a size.
pub fn positive_range(all_curves: &[(&BenchmarkId, &Vec<i64>)]) -> (result: Result<
    (i64, i64),
    PlotError,
>)
    ensures
        match result {
            Ok((lowest, highest)) => is_positive_range(all_curves@, lowest, highest),
            Err(PlotError::EmptyRange) => no_positive_support(all_curves@),
            Err(_) => false,
        },
{
    let mut range: Option<(i64, i64)> = None;
    let mut c: usize = 0;
    while c < all_curves.len()
        invariant
            c <= all_curves.len(),
            range_up_to(all_curves@, c as int, 0, range),
        decreases all_curves.len() - c,
    {
        let support: &Vec<i64> = all_curves[c].1;
        let mut p: usize = 0;
        while p < support.len()
            invariant
                c < all_curves.len(),
                support == all_curves[c as int].1,
                p <= support.len(),
                range_up_to(all_curves@, c as int, p as int, range),
            decreases support.len() - p,
        {
            let e = support[p];
            proof {
                assert(in_curves(all_curves@, c as int, p as int));
                assert(support_at(all_curves@, c as int, p as int) == e);
            }
            if e > 0 {
                range = match range {
                    None => Some((e, e)),
                    Some((lowest, highest)) => if e < lowest {
                        Some((e, highest))
                    } else if e > highest {
                        Some((lowest, e))
                    } else {
                        Some((lowest, highest))
                    },
                };
            }
            p += 1;
        }
        c += 1;
    }
    match range {
        Some(found) => Ok(found),
        None => Err(PlotError::EmptyRange),
    }
}

/// At its greatest density a violin stays inside its own row, so that violins in
/// neighbouring rows never touch.
pub proof fn lemma_bands_apart(row: int)
    requires
        0 <= row <= usize::MAX,
    ensures
        ROW_HEIGHT * row < band_at(row).low,
        band_at(row).high < ROW_HEIGHT * (row + 1),
        band_at(row).high < band_at(row + 1).low,
        band_at(row).centre - band_at(row).low == HALF_WIDTH,
        band_at(row).high - band_at(row).centre == HALF_WIDTH,
        2 * band_at(row).centre == ROW_HEIGHT * row + ROW_HEIGHT * (row + 1),
{
}

} // verus!
