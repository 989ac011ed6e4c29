//! The points of one line: a group's measurements, ordered by input.

use crate::model::{Benchmark, BenchmarkId, PlotError};
use crate::grouping::{group_by_function, grouped, lemma_positions_of, names_of, positions_of};
use crate::linked_map::{groups_view, name_text};
use vstd::prelude::*;
use vstd::seq_lib::{
    to_multiset_build, to_multiset_contains, to_multiset_insert, to_multiset_len, to_multiset_remove,
};

verus! {

/// One measurement on a line chart.
#[derive(Clone, Copy, Debug, PartialEq, Eq)]
pub struct Point {
    /// The ordinal of the numeric input.
    pub x: i64,
    /// The ordinal of the typical estimate.
    pub y: i64,
    /// Where the benchmark stands in the input.
    pub position: usize,
}

/// `a` may stand before `b` on a line: its input is smaller, or the inputs are equal and
/// it was met no later.
pub open spec fn in_order(a: Point, b: Point) -> bool {
    a.x < b.x || (a.x == b.x && a.position <= b.position)
}

/// Every point may stand before all that follow it.
pub open spec fn is_sorted(points: Seq<Point>) -> bool {
    forall|i: int, j: int| 0 <= i < j < points.len() ==> in_order(points[i], points[j])
}

/// Whether `a` may stand before `b`.
pub fn may_precede(a: &Point, b: &Point) -> (yes: bool)
    ensures
        yes == in_order(*a, *b),
{
    a.x < b.x || (a.x == b.x && a.position <= b.position)
}

/// No two of the points stand at one position.
pub open spec fn positions_differ(points: Seq<Point>) -> bool {
    forall|i: int, j: int|
        0 <= i < j < points.len() ==> (#[trigger] points[i]).position != (#[trigger] points[j]).position
}

/// A set of points at different positions has one order only: two sorted sequences of the
/// same points are the same sequence, however the points were given.
pub proof fn lemma_sorted_order_is_unique(a: Seq<Point>, b: Seq<Point>)
    requires
        a.to_multiset() == b.to_multiset(),
        is_sorted(a),
        is_sorted(b),
        positions_differ(a),
    ensures
        a == b,
    decreases a.len(),
{
    to_multiset_len(a);
    to_multiset_len(b);
    if a.len() == 0 {
        assert(a =~= b);
    } else {
        to_multiset_contains(a, a[0]);
        to_multiset_contains(b, a[0]);
        to_multiset_contains(a, b[0]);
        to_multiset_contains(b, b[0]);
        assert(a.contains(a[0]));
        assert(b.contains(b[0]));
        let k = choose|k: int| 0 <= k < b.len() && b[k] == a[0];
        let m = choose|m: int| 0 <= m < a.len() && a[m] == b[0];
        if k > 0 && m > 0 {
            assert(in_order(a[0], a[m]));
            assert(in_order(b[0], b[k]));
        }
        assert(a[0] == b[0]);
        let rest_a = a.drop_first();
        let rest_b = b.drop_first();
        to_multiset_remove(a, 0);
        to_multiset_remove(b, 0);
        assert(a.remove(0) =~= rest_a);
        assert(b.remove(0) =~= rest_b);
        assert forall|i: int, j: int| 0 <= i < j < rest_a.len() implies in_order(
            rest_a[i],
            rest_a[j],
        ) by {
            assert(in_order(a[i + 1], a[j + 1]));
        }
        assert forall|i: int, j: int| 0 <= i < j < rest_b.len() implies in_order(
            rest_b[i],
            rest_b[j],
        ) by {
            assert(in_order(b[i + 1], b[j + 1]));
        }
        assert forall|i: int, j: int| 0 <= i < j < rest_a.len() implies (#[trigger] rest_a[i]).position
            != (#[trigger] rest_a[j]).position by {
            assert(a[i + 1].position != a[j + 1].position);
        }
        lemma_sorted_order_is_unique(rest_a, rest_b);
        assert(a =~= b) by {
            assert forall|i: int| 0 <= i < a.len() implies a[i] == b[i] by {
                if i > 0 {
                    assert(a[i] == rest_a[i - 1]);
                    assert(b[i] == rest_b[i - 1]);
                }
            }
        }
    }
}

/// Orders points by input, keeping points of equal input in the order of their positions.
/// Where the positions ascend in `points`, that is the order in which they were met.
pub fn sort_points(points: &Vec<Point>) -> (sorted: Vec<Point>)
    ensures
        sorted@.to_multiset() == points@.to_multiset(),
        sorted.len() == points.len(),
        is_sorted(sorted@),
{
    let mut sorted: Vec<Point> = Vec::new();
    let mut k: usize = 0;
    proof {
        assert(sorted@ == points@.take(0));
    }
    while k < points.len()
        invariant
            k <= points.len(),
            sorted.len() == k,
            sorted@.to_multiset() == points@.take(k as int).to_multiset(),
            is_sorted(sorted@),
        decreases points.len() - k,
    {
        let p = points[k];
        let mut at: usize = sorted.len();
        while at > 0 && !may_precede(&sorted[at - 1], &p)
            invariant
                at <= sorted.len(),
                forall|j: int| at <= j < sorted.len() ==> !in_order(#[trigger] sorted[j], p),
            decreases at,
        {
            at -= 1;
        }
        let ghost before = sorted@;
        sorted.insert(at, p);
        proof {
            to_multiset_insert(before, at as int, p);
            assert(points@.take(k + 1) == points@.take(k as int).push(p));
            to_multiset_build(points@.take(k as int), p);
            assert forall|i: int, j: int| 0 <= i < j < sorted.len() implies in_order(
                sorted[i],
                sorted[j],
            ) by {
                if j < at {
                    assert(sorted[i] == before[i] && sorted[j] == before[j]);
                } else if j == at {
                    assert(sorted[i] == before[i]);
                    assert(in_order(before[at - 1], p));
                    if i < at - 1 {
                        assert(in_order(before[i], before[at - 1]));
                    }
                } else if i == at {
                    assert(sorted[j] == before[j - 1]);
                    assert(!in_order(before[j - 1], p));
                } else if i < at {
                    assert(sorted[i] == before[i] && sorted[j] == before[j - 1]);
                } else {
                    assert(sorted[i] == before[i - 1] && sorted[j] == before[j - 1]);
                }
            }
        }
        k += 1;
    }
    proof {
        assert(points@.take(k as int) == points@);
    }
    sorted
}

/// The points of one function, ordered by input.
#[derive(Debug)]
pub struct Series {
    /// The function's name, if it has one.
    pub name: Option<String>,
    /// The input ordinals, ascending.
    pub xs: Vec<i64>,
    /// The typical estimates' ordinals, each beside its input.
    pub ys: Vec<i64>,
    /// Where each point's benchmark stands in the input.
    pub positions: Vec<usize>,
}

impl Series {
    /// The three sequences run in parallel.
    pub open spec fn well_formed(&self) -> bool {
        self.xs.len() == self.positions.len() && self.ys.len() == self.positions.len()
    }

    /// The points of the line, in the order in which they are drawn.
    pub open spec fn points(&self) -> Seq<Point> {
        Seq::new(
            self.positions.len() as nat,
            |i: int| (Point { x: self.xs[i], y: self.ys[i], position: self.positions[i] }),
        )
    }
}

/// The point that the benchmark at `position` gives.
pub open spec fn point_at(all: Seq<(&BenchmarkId, &Benchmark)>, position: usize) -> Point {
    Point {
        x: all[position as int].0.value.unwrap(),
        y: all[position as int].1.typical.unwrap(),
        position,
    }
}

/// The points of the benchmarks at `members`, in that order.
pub open spec fn group_points(all: Seq<(&BenchmarkId, &Benchmark)>, members: Seq<usize>) -> Seq<
    Point,
> {
    Seq::new(members.len(), |j: int| point_at(all, members[j]))
}

/// `series` is the line of `group`: it bears the group's name and holds exactly the
/// points of the group's benchmarks, ordered by input, points of equal input in the order
/// in which they were met.
pub open spec fn is_series_of(
    all: Seq<(&BenchmarkId, &Benchmark)>,
    group: (Option<Seq<char>>, Seq<usize>),
    series: Series,
) -> bool {
    &&& name_text(series.name) == group.0
    &&& series.well_formed()
    &&& series.points().to_multiset() == group_points(all, group.1).to_multiset()
    &&& is_sorted(series.points())
}

/// Every benchmark has a typical estimate.
pub open spec fn all_estimated(all: Seq<(&BenchmarkId, &Benchmark)>) -> bool {
    forall|j: int| 0 <= j < all.len() ==> (#[trigger] all[j]).1.typical is Some
}

/// Every benchmark has a numeric input.
pub open spec fn all_numbered(all: Seq<(&BenchmarkId, &Benchmark)>) -> bool {
    forall|j: int| 0 <= j < all.len() ==> (#[trigger] all[j]).0.value is Some
}

/// `peak` is where the greatest typical estimate stands, the first such place if there are
/// several, and nothing if there is no benchmark.
pub open spec fn is_peak(all: Seq<(&BenchmarkId, &Benchmark)>, peak: Option<usize>) -> bool {
    match peak {
        None => all.len() == 0,
        Some(p) => {
            &&& p < all.len()
            &&& forall|j: int|
                0 <= j < all.len() ==> (#[trigger] all[j]).1.typical.unwrap()
                    <= all[p as int].1.typical.unwrap()
            &&& forall|j: int|
                0 <= j < p ==> (#[trigger] all[j]).1.typical.unwrap()
                    < all[p as int].1.typical.unwrap()
        },
    }
}

/// Along a line the inputs never descend, in whatever order the group's benchmarks were
/// given; and where two points have the same input, the one met first stands first.
pub proof fn lemma_line_ascends(
    all: Seq<(&BenchmarkId, &Benchmark)>,
    group: (Option<Seq<char>>, Seq<usize>),
    series: Series,
)
    requires
        is_series_of(all, group, series),
    ensures
        forall|i: int, j: int|
            0 <= i < j < series.xs.len() ==> #[trigger] series.xs[i] <= #[trigger] series.xs[j],
        forall|i: int, j: int|
            0 <= i < j < series.xs.len() && series.xs[i] == series.xs[j]
                ==> #[trigger] series.positions[i] <= #[trigger] series.positions[j],
{
    let points = series.points();
    assert forall|i: int, j: int| 0 <= i < j < series.xs.len() implies #[trigger] series.xs[i]
        <= #[trigger] series.xs[j] by {
        assert(in_order(points[i], points[j]));
    }
    assert forall|i: int, j: int|
        0 <= i < j < series.xs.len() && series.xs[i] == series.xs[j]
        implies #[trigger] series.positions[i] <= #[trigger] series.positions[j] by {
        assert(in_order(points[i], points[j]));
    }
}

/// A line holds its group and nothing else: as many points as the group has benchmarks,
/// every benchmark of the group among them, and each point with the input and the
/// estimate of the benchmark at its position.
pub proof fn lemma_line_holds_group(
    all: Seq<(&BenchmarkId, &Benchmark)>,
    group: (Option<Seq<char>>, Seq<usize>),
    series: Series,
)
    requires
        is_series_of(all, group, series),
    ensures
        series.positions.len() == group.1.len(),
        forall|j: int| 0 <= j < group.1.len() ==> series.positions@.contains(#[trigger] group.1[j]),
        forall|i: int|
            0 <= i < series.positions.len() ==> {
                &&& group.1.contains(#[trigger] series.positions[i])
                &&& series.xs[i] == all[series.positions[i] as int].0.value.unwrap()
                &&& series.ys[i] == all[series.positions[i] as int].1.typical.unwrap()
            },
{
    let drawn = series.points();
    let given = group_points(all, group.1);
    to_multiset_len(drawn);
    to_multiset_len(given);
    assert forall|j: int| 0 <= j < group.1.len() implies series.positions@.contains(
        #[trigger] group.1[j],
    ) by {
        to_multiset_contains(given, given[j]);
        to_multiset_contains(drawn, given[j]);
        assert(given.contains(given[j]));
        let i = choose|i: int| 0 <= i < drawn.len() && drawn[i] == given[j];
        assert(series.positions@[i] == group.1[j]);
    }
    assert forall|i: int| 0 <= i < series.positions.len() implies {
        &&& group.1.contains(#[trigger] series.positions[i])
        &&& series.xs[i] == all[series.positions[i] as int].0.value.unwrap()
        &&& series.ys[i] == all[series.positions[i] as int].1.typical.unwrap()
    } by {
        to_multiset_contains(drawn, drawn[i]);
        to_multiset_contains(given, drawn[i]);
        assert(drawn.contains(drawn[i]));
        let j = choose|j: int| 0 <= j < given.len() && given[j] == drawn[i];
        assert(group.1[j] == series.positions[i]);
    }
}

/// Where the greatest typical estimate stands, or the first benchmark without one.
pub fn typical_peak(all_benchmarks: &[(&BenchmarkId, &Benchmark)]) -> (result: Result<
    Option<usize>,
    PlotError,
>)
    ensures
        match result {
            Ok(peak) => all_estimated(all_benchmarks@) && is_peak(all_benchmarks@, peak),
            Err(PlotError::MissingTypical { index }) => {
                &&& index < all_benchmarks.len()
                &&& all_benchmarks[index as int].1.typical is None
                &&& forall|j: int| 0 <= j < index ==> (#[trigger] all_benchmarks[j]).1.typical is Some
            },
            Err(_) => false,
        },
{
    let mut peak: Option<usize> = None;
    let mut best: i64 = 0;
    let mut i: usize = 0;
    while i < all_benchmarks.len()
        invariant
            i <= all_benchmarks.len(),
            forall|j: int| 0 <= j < i ==> (#[trigger] all_benchmarks[j]).1.typical is Some,
            is_peak(all_benchmarks@.take(i as int), peak),
            peak matches Some(p) ==> best == all_benchmarks[p as int].1.typical.unwrap(),
        decreases all_benchmarks.len() - i,
    {
        let ghost upto = all_benchmarks@.take(i as int);
        let ghost next = all_benchmarks@.take(i + 1);
        match all_benchmarks[i].1.typical {
            None => {
                return Err(PlotError::MissingTypical { index: i });
            },
            Some(y) => {
                let higher = match peak {
                    None => true,
                    Some(_) => best < y,
                };
                if higher {
                    peak = Some(i);
                    best = y;
                }
                proof {
                    assert forall|j: int| 0 <= j < next.len() implies (#[trigger] next[j]).1.typical.unwrap()
                        <= next[peak.unwrap() as int].1.typical.unwrap() by {
                        if j < i {
                            assert(next[j] == upto[j]);
                        }
                    }
                    assert forall|j: int| 0 <= j < peak.unwrap() implies (#[trigger] next[j]).1.typical.unwrap()
                        < next[peak.unwrap() as int].1.typical.unwrap() by {
                        assert(next[j] == upto[j]);
                    }
                }
            },
        }
        i += 1;
    }
    proof {
        assert(all_benchmarks@.take(i as int) == all_benchmarks@);
    }
    Ok(peak)
}

/// The first benchmark without a numeric input, if there is one.
pub fn first_unnumbered(all_benchmarks: &[(&BenchmarkId, &Benchmark)]) -> (found: Option<usize>)
    ensures
        match found {
            None => all_numbered(all_benchmarks@),
            Some(index) => {
                &&& index < all_benchmarks.len()
                &&& all_benchmarks[index as int].0.value is None
                &&& forall|j: int| 0 <= j < index ==> (#[trigger] all_benchmarks[j]).0.value is Some
            },
        },
{
    let mut i: usize = 0;
    while i < all_benchmarks.len()
        invariant
            i <= all_benchmarks.len(),
            forall|j: int| 0 <= j < i ==> (#[trigger] all_benchmarks[j]).0.value is Some,
        decreases all_benchmarks.len() - i,
    {
        if all_benchmarks[i].0.as_number().is_none() {
            return Some(i);
        }
        i += 1;
    }
    None
}

/// The line of one group of benchmarks.
fn series_of_group(
    all_benchmarks: &[(&BenchmarkId, &Benchmark)],
    name: &Option<String>,
    members: &Vec<usize>,
) -> (series: Series)
    requires
        all_estimated(all_benchmarks@),
        all_numbered(all_benchmarks@),
        forall|j: int| 0 <= j < members.len() ==> (#[trigger] members[j]) < all_benchmarks.len(),
    ensures
        is_series_of(all_benchmarks@, (name_text(*name), members@), series),
{
    let mut points: Vec<Point> = Vec::new();
    let mut j: usize = 0;
    while j < members.len()
        invariant
            j <= members.len(),
            all_estimated(all_benchmarks@),
            all_numbered(all_benchmarks@),
            forall|t: int| 0 <= t < members.len() ==> (#[trigger] members[t]) < all_benchmarks.len(),
            points@ == group_points(all_benchmarks@, members@.take(j as int)),
        decreases members.len() - j,
    {
        let position = members[j];
        let x = match all_benchmarks[position].0.as_number() {
            Some(x) => x,
            None => 0,
        };
        let y = match all_benchmarks[position].1.typical {
            Some(y) => y,
            None => 0,
        };
        points.push(Point { x, y, position });
        proof {
            assert(members@.take(j + 1) == members@.take(j as int).push(position));
            assert(points@ =~= group_points(all_benchmarks@, members@.take(j + 1)));
        }
        j += 1;
    }
    proof {
        assert(members@.take(j as int) == members@);
    }
    let sorted = sort_points(&points);
    let mut xs: Vec<i64> = Vec::new();
    let mut ys: Vec<i64> = Vec::new();
    let mut positions: Vec<usize> = Vec::new();
    let mut i: usize = 0;
    while i < sorted.len()
        invariant
            i <= sorted.len(),
            xs.len() == i,
            ys.len() == i,
            positions.len() == i,
            forall|t: int|
                0 <= t < i ==> sorted[t] == (Point {
                    x: #[trigger] xs[t],
                    y: ys[t],
                    position: positions[t],
                }),
        decreases sorted.len() - i,
    {
        xs.push(sorted[i].x);
        ys.push(sorted[i].y);
        positions.push(sorted[i].position);
        i += 1;
    }
    let name = match name {
        Some(text) => Some(text.clone()),
        None => None,
    };
    let series = Series { name, xs, ys, positions };
    proof {
        assert(series.points() =~= sorted@);
    }
    series
}

/// The lines of a comparison chart, one for each function in the order in which the
/// functions are first met, together with the place of the greatest typical estimate, by
/// which the whole chart is scaled.
pub fn line_comparison_series_data(all_benchmarks: &[(&BenchmarkId, &Benchmark)]) -> (result: Result<
    (Option<usize>, Vec<Series>),
    PlotError,
>)
    ensures
        match result {
            Ok((peak, lines)) => {
                &&& all_estimated(all_benchmarks@)
                &&& all_numbered(all_benchmarks@)
                &&& is_peak(all_benchmarks@, peak)
                &&& lines.len() == grouped(names_of(all_benchmarks@)).len()
                &&& forall|g: int|
                    0 <= g < lines.len() ==> is_series_of(
                        all_benchmarks@,
                        grouped(names_of(all_benchmarks@))[g],
                        #[trigger] lines[g],
                    )
            },
            Err(PlotError::MissingTypical { index }) => {
                &&& index < all_benchmarks.len()
                &&& all_benchmarks[index as int].1.typical is None
                &&& forall|j: int| 0 <= j < index ==> (#[trigger] all_benchmarks[j]).1.typical is Some
            },
            Err(PlotError::MissingInput { index }) => {
                &&& all_estimated(all_benchmarks@)
                &&& index < all_benchmarks.len()
                &&& all_benchmarks[index as int].0.value is None
                &&& forall|j: int| 0 <= j < index ==> (#[trigger] all_benchmarks[j]).0.value is Some
            },
            Err(PlotError::EmptyRange) => false,
        },
{
    let peak = match typical_peak(all_benchmarks) {
        Ok(peak) => peak,
        Err(e) => {
            return Err(e);
        },
    };
    if let Some(index) = first_unnumbered(all_benchmarks) {
        return Err(PlotError::MissingInput { index });
    }
    let groups = group_by_function(all_benchmarks);
    let ghost names = names_of(all_benchmarks@);
    let ghost wanted = grouped(names);
    let mut lines: Vec<Series> = Vec::new();
    let mut g: usize = 0;
    while g < groups.len()
        invariant
            g <= groups.len(),
            all_estimated(all_benchmarks@),
            all_numbered(all_benchmarks@),
            names == names_of(all_benchmarks@),
            wanted == grouped(names),
            groups_view(groups@) == wanted,
            lines.len() == g,
            forall|h: int| 0 <= h < g ==> is_series_of(all_benchmarks@, wanted[h], #[trigger] lines[h]),
        decreases groups.len() - g,
    {
        proof {
            assert(names.len() == all_benchmarks.len());
            assert(groups_view(groups@).len() == groups.len());
            assert(groups_view(groups@)[g as int] == (
                name_text(*groups[g as int].0),
                groups[g as int].1@,
            ));
            assert(wanted[g as int].1 == positions_of(names, wanted[g as int].0));
            lemma_positions_of(names, wanted[g as int].0);
        }
        let series = series_of_group(all_benchmarks, groups[g].0, &groups[g].1);
        lines.push(series);
        g += 1;
    }
    Ok((peak, lines))
}

} // verus!
