use summary_plot::distribution::{band_of, positive_range, violin_rows, Band, HALF_WIDTH, ROW_HEIGHT};
use summary_plot::model::{AxisScale, BenchmarkId, PlotError};
use summary_plot::ordinal::{bits_of_ordinal, ordinal_of_bits};
use summary_plot::palette::{violin_fill, Rgb, VIOLIN_OPACITY_PERCENT};
use summary_plot::summary::violin;

fn ordinal(x: f64) -> i64 {
    ordinal_of_bits(x.to_bits())
}

fn number(ordinal: i64) -> f64 {
    f64::from_bits(bits_of_ordinal(ordinal))
}

fn id(title: &str) -> BenchmarkId {
    BenchmarkId { function_id: None, value: None, title: title.to_string() }
}

fn support(values: &[f64]) -> Vec<i64> {
    values.iter().map(|&x| ordinal(x)).collect()
}

#[test]
fn three_benchmarks_give_three_rows_from_the_last_to_the_first() {
    let ids = vec![id("first_one"), id("second"), id("third")];
    let curve = support(&[-0.5, 0.0, 0.5, 1.0, 1.5]);
    let all: Vec<(&BenchmarkId, &Vec<i64>)> = ids.iter().map(|i| (i, &curve)).collect();
    let chart = violin("sort_times", &all, AxisScale::Logarithmic).unwrap();

    assert_eq!(chart.title, "sort\\_times: Violin plot");
    assert_eq!(chart.axis_scale, AxisScale::Logarithmic);
    assert_eq!(number(chart.lowest), 0.5);
    assert_eq!(number(chart.highest), 1.5);

    assert_eq!(chart.rows.len(), 3);
    let labels: Vec<&str> = chart.rows.iter().map(|r| r.label.as_str()).collect();
    assert_eq!(labels, vec!["third", "second", "first\\_one"]);
    let positions: Vec<usize> = chart.rows.iter().map(|r| r.position).collect();
    assert_eq!(positions, vec![2, 1, 0]);
    let centres: Vec<f64> =
        chart.rows.iter().map(|r| r.band.centre as f64 / ROW_HEIGHT as f64).collect();
    assert_eq!(centres, vec![0.5, 1.5, 2.5]);
    for row in &chart.rows {
        assert_eq!(row.band.centre - row.band.low, HALF_WIDTH);
        assert_eq!(row.band.high - row.band.centre, HALF_WIDTH);
        assert_eq!(HALF_WIDTH as f64 / ROW_HEIGHT as f64, 0.45);
    }
    assert!(chart.rows[0].band.high < chart.rows[1].band.low);
    assert!(chart.rows[1].band.high < chart.rows[2].band.low);
}

#[test]
fn a_single_benchmark_gives_the_range_of_its_own_curve() {
    let ids = vec![id("only")];
    let curve = support(&[1.25, 2.5, 0.75]);
    let all: Vec<(&BenchmarkId, &Vec<i64>)> = vec![(&ids[0], &curve)];
    let chart = violin("one", &all, AxisScale::Linear).unwrap();
    assert_eq!(number(chart.lowest), 0.75);
    assert_eq!(number(chart.highest), 2.5);
    assert_eq!(chart.rows.len(), 1);
    assert_eq!(chart.rows[0].band, Band { low: 5, centre: 50, high: 95 });
}

#[test]
fn a_support_of_one_point_gives_a_range_of_no_width() {
    let ids = vec![id("only")];
    let curve = support(&[3.0]);
    let all: Vec<(&BenchmarkId, &Vec<i64>)> = vec![(&ids[0], &curve)];
    let chart = violin("one", &all, AxisScale::Linear).unwrap();
    assert_eq!(chart.lowest, chart.highest);
    let middle = (number(chart.lowest) + number(chart.highest)) / 2.0;
    assert_eq!(middle, 3.0);
}

#[test]
fn the_range_goes_over_all_curves_and_leaves_out_what_is_not_above_zero() {
    let ids = vec![id("a"), id("b"), id("c")];
    let curves = vec![
        support(&[-7.0, 4.0, 9.0]),
        support(&[0.0, f64::NAN, -0.0]),
        support(&[2.0, 30.0, -100.0, f64::NEG_INFINITY]),
    ];
    let all: Vec<(&BenchmarkId, &Vec<i64>)> = ids.iter().zip(curves.iter()).collect();
    let (lowest, highest) = positive_range(&all).unwrap();
    assert_eq!(number(lowest), 2.0);
    assert_eq!(number(highest), 30.0);
}

#[test]
fn no_support_above_zero_gives_no_range() {
    let ids = vec![id("a"), id("b")];
    let curves = vec![support(&[-1.0, 0.0]), support(&[])];
    let all: Vec<(&BenchmarkId, &Vec<i64>)> = ids.iter().zip(curves.iter()).collect();
    assert_eq!(positive_range(&all), Err(PlotError::EmptyRange));
    assert_eq!(violin("t", &all, AxisScale::Linear).err(), Some(PlotError::EmptyRange));
}

#[test]
fn no_benchmarks_give_no_range() {
    assert_eq!(positive_range(&[]), Err(PlotError::EmptyRange));
    assert_eq!(violin("t", &[], AxisScale::Linear).err(), Some(PlotError::EmptyRange));
    assert!(violin_rows(&[]).is_empty());
}

#[test]
fn bands_are_centred_in_their_rows() {
    assert_eq!(band_of(0), Band { low: 5, centre: 50, high: 95 });
    assert_eq!(band_of(1), Band { low: 105, centre: 150, high: 195 });
    assert_eq!(band_of(7), Band { low: 705, centre: 750, high: 795 });
    let last = band_of(usize::MAX);
    assert_eq!(last.centre, usize::MAX as u128 * 100 + 50);
    assert_eq!(last.high - last.low, 90);
}

#[test]
fn violins_share_one_translucent_fill() {
    assert_eq!(violin_fill(), Rgb { red: 31, green: 120, blue: 180 });
    assert_eq!(VIOLIN_OPACITY_PERCENT, 25);
}
