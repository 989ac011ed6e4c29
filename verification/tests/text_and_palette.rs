use summary_plot::model::{BenchmarkId, ValueType};
use summary_plot::palette::{comparison_color, Rgb, NUM_COLORS};
use summary_plot::text::{
    average_time_label, comparison_title, escape_underscores, input_label, violin_title,
};

#[test]
fn underscores_get_a_backslash() {
    assert_eq!(escape_underscores("a_b"), "a\\_b");
    assert_eq!(escape_underscores("__init__"), "\\_\\_init\\_\\_");
    assert_eq!(escape_underscores("plain text"), "plain text");
    assert_eq!(escape_underscores(""), "");
    assert_eq!(escape_underscores("_"), "\\_");
    assert_eq!(escape_underscores("back\\slash_"), "back\\slash\\_");
}

#[test]
fn text_beyond_ascii_is_kept() {
    assert_eq!(escape_underscores("größe_µs_時間"), "größe\\_µs\\_時間");
}

#[test]
fn titles_name_the_kind_of_chart() {
    assert_eq!(comparison_title("fib_vs_fact"), "fib\\_vs\\_fact: Comparison");
    assert_eq!(violin_title("fib_vs_fact"), "fib\\_vs\\_fact: Violin plot");
    assert_eq!(comparison_title(""), ": Comparison");
}

#[test]
fn the_input_axis_says_what_is_counted() {
    assert_eq!(input_label(ValueType::Bytes), "Input Size (Bytes)");
    assert_eq!(input_label(ValueType::Elements), "Input Size (Elements)");
    assert_eq!(input_label(ValueType::Value), "Input");
}

#[test]
fn the_time_axis_names_the_unit() {
    assert_eq!(average_time_label("ms"), "Average time (ms)");
    assert_eq!(average_time_label("µs"), "Average time (µs)");
    assert_eq!(average_time_label(""), "Average time ()");
}

#[test]
fn the_palette_has_eight_colours() {
    let expected = [
        (178, 34, 34),
        (46, 139, 87),
        (0, 139, 139),
        (255, 215, 0),
        (0, 0, 139),
        (220, 20, 60),
        (139, 0, 139),
        (0, 255, 127),
    ];
    assert_eq!(NUM_COLORS, 8);
    for (i, &(red, green, blue)) in expected.iter().enumerate() {
        assert_eq!(comparison_color(i), Rgb { red, green, blue });
    }
}

#[test]
fn colours_go_by_the_line_number_modulo_eight() {
    for i in 0..40usize {
        assert_eq!(comparison_color(i + 8), comparison_color(i));
        assert_eq!(comparison_color(i), comparison_color(i % 8));
    }
    assert_eq!(comparison_color(usize::MAX), comparison_color(usize::MAX % 8));
}

#[test]
fn an_id_gives_its_number_and_title() {
    let id = BenchmarkId {
        function_id: Some("f".to_string()),
        value: Some(12),
        title: "f/12".to_string(),
    };
    assert_eq!(id.as_number(), Some(12));
    assert_eq!(id.as_title(), "f/12");
    let bare = BenchmarkId { function_id: None, value: None, title: String::new() };
    assert_eq!(bare.as_number(), None);
    assert_eq!(bare.as_title(), "");
}
