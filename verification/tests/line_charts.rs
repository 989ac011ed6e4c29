use summary_plot::model::{AxisScale, Benchmark, BenchmarkId, PlotError, ValueType};
use summary_plot::ordinal::{bits_of_ordinal, ordinal_of_bits};
use summary_plot::palette::Rgb;
use summary_plot::series::{
    first_unnumbered, line_comparison_series_data, sort_points, typical_peak, Point,
};
use summary_plot::summary::line_comparison;

fn ordinal(x: f64) -> i64 {
    ordinal_of_bits(x.to_bits())
}

fn number(ordinal: i64) -> f64 {
    f64::from_bits(bits_of_ordinal(ordinal))
}

fn id(function: Option<&str>, value: Option<f64>) -> BenchmarkId {
    BenchmarkId {
        function_id: function.map(|f| f.to_string()),
        value: value.map(ordinal),
        title: String::new(),
    }
}

fn bench(typical: Option<f64>) -> Benchmark {
    Benchmark { typical: typical.map(ordinal) }
}

fn pair<'a>(
    ids: &'a [BenchmarkId],
    benches: &'a [Benchmark],
) -> Vec<(&'a BenchmarkId, &'a Benchmark)> {
    ids.iter().zip(benches.iter()).collect()
}

#[test]
fn two_functions_give_two_ascending_lines() {
    let ids = vec![
        id(Some("fib"), Some(30.0)),
        id(Some("fact"), Some(10.0)),
        id(Some("fib"), Some(10.0)),
        id(Some("fact"), Some(30.0)),
        id(Some("fib"), Some(20.0)),
        id(Some("fact"), Some(20.0)),
    ];
    let benches = vec![
        bench(Some(2000.0)),
        bench(Some(15.0)),
        bench(Some(100.0)),
        bench(Some(45.0)),
        bench(Some(700.0)),
        bench(Some(30.0)),
    ];
    let all = pair(&ids, &benches);
    let chart = line_comparison("recursion", &all, ValueType::Value, AxisScale::Linear).unwrap();

    assert_eq!(chart.title, "recursion: Comparison");
    assert_eq!(chart.input_label, "Input");
    assert_eq!(chart.axis_scale, AxisScale::Linear);
    assert_eq!(chart.peak, Some(0));
    assert_eq!(number(benches[chart.peak.unwrap()].typical.unwrap()), 2000.0);

    assert_eq!(chart.lines.len(), 2);
    let fib = &chart.lines[0].series;
    let fact = &chart.lines[1].series;
    assert_eq!(fib.name.as_deref(), Some("fib"));
    assert_eq!(fact.name.as_deref(), Some("fact"));
    let xs = |v: &Vec<i64>| v.iter().map(|&o| number(o)).collect::<Vec<f64>>();
    assert_eq!(xs(&fib.xs), vec![10.0, 20.0, 30.0]);
    assert_eq!(xs(&fib.ys), vec![100.0, 700.0, 2000.0]);
    assert_eq!(fib.positions, vec![2, 4, 0]);
    assert_eq!(xs(&fact.xs), vec![10.0, 20.0, 30.0]);
    assert_eq!(xs(&fact.ys), vec![15.0, 30.0, 45.0]);
    assert_eq!(fact.positions, vec![1, 5, 3]);
    assert_eq!(chart.lines[0].color, Rgb { red: 178, green: 34, blue: 34 });
    assert_eq!(chart.lines[1].color, Rgb { red: 46, green: 139, blue: 87 });
}

#[test]
fn a_record_without_typical_estimate_stops_the_chart() {
    let ids = vec![id(Some("fib"), Some(10.0)), id(Some("fib"), Some(20.0))];
    let benches = vec![bench(Some(1.0)), bench(None)];
    let all = pair(&ids, &benches);
    let result = line_comparison("t", &all, ValueType::Value, AxisScale::Linear);
    assert_eq!(result.err(), Some(PlotError::MissingTypical { index: 1 }));
    assert_eq!(
        line_comparison_series_data(&all).err(),
        Some(PlotError::MissingTypical { index: 1 })
    );
}

#[test]
fn an_id_without_number_stops_the_chart() {
    let ids = vec![id(Some("a"), Some(1.0)), id(Some("b"), None), id(Some("a"), None)];
    let benches = vec![bench(Some(1.0)), bench(Some(2.0)), bench(Some(3.0))];
    let all = pair(&ids, &benches);
    let result = line_comparison("t", &all, ValueType::Value, AxisScale::Linear);
    assert_eq!(result.err(), Some(PlotError::MissingInput { index: 1 }));
    assert_eq!(first_unnumbered(&all), Some(1));
}

#[test]
fn a_missing_estimate_is_reported_before_a_missing_number() {
    let ids = vec![id(Some("a"), None), id(Some("a"), Some(1.0))];
    let benches = vec![bench(Some(1.0)), bench(None)];
    let all = pair(&ids, &benches);
    let result = line_comparison("t", &all, ValueType::Value, AxisScale::Linear);
    assert_eq!(result.err(), Some(PlotError::MissingTypical { index: 1 }));
}

#[test]
fn no_benchmarks_give_an_empty_chart() {
    let chart = line_comparison("none", &[], ValueType::Bytes, AxisScale::Logarithmic).unwrap();
    assert_eq!(chart.title, "none: Comparison");
    assert_eq!(chart.input_label, "Input Size (Bytes)");
    assert_eq!(chart.axis_scale, AxisScale::Logarithmic);
    assert_eq!(chart.peak, None);
    assert!(chart.lines.is_empty());
}

#[test]
fn equal_inputs_keep_the_order_in_which_they_were_met() {
    let ids = vec![
        id(Some("f"), Some(2.0)),
        id(Some("f"), Some(1.0)),
        id(Some("f"), Some(2.0)),
        id(Some("f"), Some(1.0)),
        id(Some("f"), Some(2.0)),
    ];
    let benches: Vec<Benchmark> = (0..5).map(|i| bench(Some(50.0 - i as f64))).collect();
    let all = pair(&ids, &benches);
    let (_, lines) = line_comparison_series_data(&all).unwrap();
    assert_eq!(lines.len(), 1);
    assert_eq!(lines[0].positions, vec![1, 3, 0, 2, 4]);
    let ys: Vec<f64> = lines[0].ys.iter().map(|&o| number(o)).collect();
    assert_eq!(ys, vec![49.0, 47.0, 50.0, 48.0, 46.0]);
}

#[test]
fn inputs_ascend_for_every_order_of_a_group() {
    let values = [3.0, -1.5, 0.0, 7.25, 2.0];
    let orders: [[usize; 5]; 4] =
        [[0, 1, 2, 3, 4], [4, 3, 2, 1, 0], [2, 0, 4, 1, 3], [1, 3, 0, 4, 2]];
    for order in orders {
        let ids: Vec<BenchmarkId> =
            order.iter().map(|&k| id(Some("f"), Some(values[k]))).collect();
        let benches: Vec<Benchmark> = order.iter().map(|&k| bench(Some(values[k] * 2.0))).collect();
        let all = pair(&ids, &benches);
        let (_, lines) = line_comparison_series_data(&all).unwrap();
        let xs: Vec<f64> = lines[0].xs.iter().map(|&o| number(o)).collect();
        let ys: Vec<f64> = lines[0].ys.iter().map(|&o| number(o)).collect();
        assert_eq!(xs, vec![-1.5, 0.0, 2.0, 3.0, 7.25]);
        assert_eq!(ys, vec![-3.0, 0.0, 4.0, 6.0, 14.5]);
    }
}

#[test]
fn an_input_that_is_no_number_sorts_as_least() {
    let ids = vec![
        id(Some("f"), Some(1.0)),
        id(Some("f"), Some(f64::NAN)),
        id(Some("f"), Some(f64::NEG_INFINITY)),
    ];
    let benches = vec![bench(Some(1.0)), bench(Some(2.0)), bench(Some(3.0))];
    let all = pair(&ids, &benches);
    let (_, lines) = line_comparison_series_data(&all).unwrap();
    assert_eq!(lines[0].positions, vec![1, 2, 0]);
}

#[test]
fn the_peak_is_the_first_of_the_greatest_estimates() {
    let ids: Vec<BenchmarkId> = (0..5).map(|i| id(Some("f"), Some(i as f64))).collect();
    let benches = vec![
        bench(Some(3.0)),
        bench(Some(9.5)),
        bench(Some(f64::NAN)),
        bench(Some(9.5)),
        bench(Some(-1.0)),
    ];
    let all = pair(&ids, &benches);
    assert_eq!(typical_peak(&all), Ok(Some(1)));
    assert_eq!(typical_peak(&[]), Ok(None));
}

#[test]
fn the_ninth_line_has_the_colour_of_the_first() {
    let names: Vec<String> = (0..9).map(|i| format!("f{}", i)).collect();
    let ids: Vec<BenchmarkId> = names.iter().map(|n| id(Some(n), Some(1.0))).collect();
    let benches: Vec<Benchmark> = (0..9).map(|_| bench(Some(1.0))).collect();
    let all = pair(&ids, &benches);
    for _ in 0..2 {
        let chart = line_comparison("nine", &all, ValueType::Elements, AxisScale::Linear).unwrap();
        assert_eq!(chart.lines.len(), 9);
        assert_eq!(chart.lines[8].color, chart.lines[0].color);
        for i in 0..8 {
            for j in (i + 1)..8 {
                assert_ne!(chart.lines[i].color, chart.lines[j].color);
            }
        }
    }
}

#[test]
fn an_unnamed_group_has_no_legend_name() {
    let ids = vec![id(None, Some(1.0)), id(Some("g"), Some(1.0)), id(None, Some(0.5))];
    let benches = vec![bench(Some(1.0)), bench(Some(2.0)), bench(Some(3.0))];
    let all = pair(&ids, &benches);
    let chart = line_comparison("t", &all, ValueType::Value, AxisScale::Linear).unwrap();
    assert_eq!(chart.lines[0].series.name, None);
    assert_eq!(chart.lines[0].series.positions, vec![2, 0]);
    assert_eq!(chart.lines[1].series.name.as_deref(), Some("g"));
}

#[test]
fn points_are_sorted_by_input_then_position() {
    let p = |x: i64, y: i64, position: usize| Point { x, y, position };
    let points = vec![p(5, 0, 0), p(-2, 1, 1), p(5, 2, 2), p(0, 3, 3), p(-2, 4, 4)];
    assert_eq!(
        sort_points(&points),
        vec![p(-2, 1, 1), p(-2, 4, 4), p(0, 3, 3), p(5, 0, 0), p(5, 2, 2)]
    );
    assert_eq!(sort_points(&Vec::new()), Vec::new());
}
