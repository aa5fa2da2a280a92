use asciigraph::plot;
use asciigraph::render::{check_input, render};
use asciigraph::scale::{bounds, min_max};
use asciigraph::{Color, Config, PlotError};

fn texts(labels: &[&str]) -> Vec<String> {
    labels.iter().map(|l| l.to_string()).collect()
}

#[test]
fn test_min_max() {
    let series = [2, 1, 1, 2, -2, 5, 7, 11, 3, 7, 1].map(Some);
    assert_eq!(min_max(&series), Some((-2, 11)));
}

#[test]
fn min_max_skips_gaps() {
    assert_eq!(min_max(&[None, Some(4), None, Some(-3), None]), Some((-3, 4)));
}

#[test]
fn min_max_of_gaps_only_is_none() {
    assert_eq!(min_max(&[None, None]), None);
    assert_eq!(min_max(&[]), None);
}

#[test]
fn min_max_ignores_order() {
    let a = [Some(5), Some(-1), None, Some(9), Some(0)];
    let b = [Some(9), None, Some(0), Some(5), Some(-1)];
    assert_eq!(min_max(&a), Some((-1, 9)));
    assert_eq!(min_max(&a), min_max(&b));
}

#[test]
fn bounds_span_all_series() {
    let series = vec![vec![Some(3), None], vec![None, None], vec![Some(-7), Some(12)]];
    assert_eq!(bounds(&series), Some((-7, 12)));
    assert_eq!(bounds(&vec![vec![None], vec![None, None]]), None);
}

#[test]
fn constant_series_is_one_row() {
    let series = vec![vec![Some(7); 4]];
    let res = render(&series, &texts(&["7.00"]), 4, &Config::default(), false);
    assert_eq!(res, Ok(" 7.00 ┼───".to_string()));
}

#[test]
fn single_sample_is_one_junction() {
    let series = vec![vec![Some(2)]];
    let res = render(&series, &texts(&["2.00"]), 4, &Config::default(), false);
    assert_eq!(res, Ok(" 2.00 ┼".to_string()));
}

#[test]
fn interior_gap_leaves_two_stubs() {
    let series = vec![vec![Some(0), Some(2), None, Some(0), Some(0)]];
    let res = render(&series, &texts(&["2.00", "1.00", "0.00"]), 4, &Config::default(), false);
    let expected = " 2.00 ┤╭─   \n 1.00 ┤│    \n 0.00 ┼╯ ──";
    assert_eq!(res, Ok(expected.to_string()));
}

#[test]
fn overlay_order_changes_shared_cells() {
    let flat = vec![Some(1), Some(1)];
    let rising = vec![Some(0), Some(1)];
    let labels = texts(&["1.00", "0.00"]);
    let config = Config::default();
    let flat_last = render(&vec![rising.clone(), flat.clone()], &labels, 4, &config, false);
    let rising_last = render(&vec![flat, rising], &labels, 4, &config, false);
    assert_eq!(flat_last, Ok(" 1.00 ┼─ \n 0.00 ┼╯".to_string()));
    assert_eq!(rising_last, Ok(" 1.00 ┼╭ \n 0.00 ┼╯".to_string()));
    assert_ne!(flat_last, rising_last);
}

#[test]
fn colored_chart_wraps_each_role() {
    let series = vec![vec![Some(1), Some(1)]];
    let config = Config::default()
        .with_series_colors(vec![Color::Red])
        .with_axis_color(Color::Blue)
        .with_label_color(Color::Green)
        .with_caption("c".to_string())
        .with_caption_color(Color::Yellow);
    let res = render(&series, &texts(&["1.00"]), 4, &config, true);
    let expected = "\x1b[32m 1.00\x1b[0m \x1b[34m┼\x1b[0m\x1b[31m─\x1b[0m\n       \x1b[33mc\x1b[0m";
    assert_eq!(res, Ok(expected.to_string()));
}

#[test]
fn caption_is_centred_over_data() {
    let series = vec![vec![Some(0); 9]];
    let config = Config::default().with_caption("ab".to_string());
    let res = render(&series, &texts(&["0.00"]), 4, &config, false);
    assert_eq!(res, Ok(" 0.00 ┼────────\n          ab".to_string()));
}

#[test]
fn wide_offset_right_aligns_labels() {
    let series = vec![vec![Some(1), Some(0)]];
    let config = Config::default().with_offset(8);
    let res = render(&series, &texts(&["1.00", "0.00"]), 4, &config, false);
    assert_eq!(res, Ok("    1.00   ┼╮ \n    0.00   ┤╰".to_string()));
}

#[test]
fn render_rejects_no_series() {
    let res = render(&vec![], &texts(&["1.00"]), 4, &Config::default(), false);
    assert_eq!(res, Err(PlotError::NoSeries));
}

#[test]
fn render_rejects_empty_series() {
    let res = render(&vec![vec![Some(1)], vec![]], &texts(&["1.00"]), 4, &Config::default(), false);
    assert_eq!(res, Err(PlotError::EmptySeries));
}

#[test]
fn render_rejects_gaps_only() {
    let res = render(&vec![vec![None, None]], &texts(&["1.00"]), 4, &Config::default(), false);
    assert_eq!(res, Err(PlotError::NoData));
}

#[test]
fn render_rejects_wrong_label_count() {
    let res = render(&vec![vec![Some(0), Some(2)]], &texts(&["2.00", "0.00"]), 4, &Config::default(), false);
    assert_eq!(res, Err(PlotError::LabelCount));
}

#[test]
fn render_rejects_missing_series_color() {
    let series = vec![vec![Some(0)], vec![Some(0)]];
    let config = Config::default().with_series_colors(vec![Color::Red]);
    let res = render(&series, &texts(&["0.00"]), 4, &config, true);
    assert_eq!(res, Err(PlotError::MissingSeriesColor));
    let plain = render(&series, &texts(&["0.00"]), 4, &config, false);
    assert_eq!(plain, Ok(" 0.00 ┼".to_string()));
}

#[test]
fn check_input_errors() {
    let config = Config::default();
    assert_eq!(check_input(&vec![], &config), Err(PlotError::NoSeries));
    assert_eq!(check_input(&vec![3, 0], &config), Err(PlotError::EmptySeries));
    assert_eq!(check_input(&vec![3], &config.clone().with_width(1)), Err(PlotError::InvalidWidth));
    assert_eq!(check_input(&vec![3, 5], &config.clone().with_width(2)), Ok(()));
    assert_eq!(check_input(&vec![1], &config), Ok(()));
}

#[test]
fn config_builders_set_fields() {
    let config = Config::default()
        .with_caption("x".to_string())
        .with_height(4)
        .with_width(30)
        .with_offset(5)
        .with_caption_color(Color::Cyan)
        .with_axis_color(Color::Magenta)
        .with_label_color(Color::DarkGray)
        .with_series_colors(vec![Color::Red, Color::Blue])
        .with_series_legends(vec!["a".to_string()]);
    assert_eq!(config.caption, "x");
    assert_eq!((config.width, config.height, config.offset), (30, 4, 5));
    assert_eq!(config.caption_color, Color::Cyan);
    assert_eq!(config.axis_color, Color::Magenta);
    assert_eq!(config.label_color, Color::DarkGray);
    assert_eq!(config.series_colors, vec![Color::Red, Color::Blue]);
    assert_eq!(config.series_legends, vec!["a".to_string()]);
    assert_eq!(config.effective_offset(), 5);
    assert_eq!(Config::default().effective_offset(), 3);
}

#[test]
fn color_codes() {
    assert_eq!(Color::Black.code(), "30");
    assert_eq!(Color::LightGray.code(), "37");
    assert_eq!(Color::Default.code(), "39");
    assert_eq!(Color::White.code(), "97");
}

#[test]
fn colored_wraps_text() {
    assert_eq!(plot::colored("╭", "31"), "\x1b[31m╭\x1b[0m");
    assert_eq!(plot::colored("", "0"), "\x1b[0m\x1b[0m");
}

#[test]
fn single_color_config() {
    assert_eq!(plot::Config::default().color, "97");
    assert_eq!(plot::Config::default().color("32").color, "32");
}

#[test]
fn color_from_code() {
    assert_eq!(Color::from_code("31"), Some(Color::Red));
    assert_eq!(Color::from_code("97"), Some(Color::White));
    assert_eq!(Color::from_code("38"), None);
    assert_eq!(Color::from_code(""), None);
}
