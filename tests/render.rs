use macnetmon::layout::grid_layout;
use macnetmon::model::{Config, DisplaySettings, SortMode};
use macnetmon::net::{is_physical_interface, is_up};
use macnetmon::rate::{counter_delta, effective_elapsed, push_history, rounded_per_second, Rate};
use macnetmon::sparkline::{
    bar_column, combined_data, combined_graph, row_level, scale_of, scale_units, sparkline_data,
    split_graph, BarCell,
};
use macnetmon::theme::{build_themes, rgb, solid_tx_color, Color};
use macnetmon::constants::HISTORY_LEN;

#[test]
fn regressed_counter_gives_zero_delta() {
    assert_eq!(counter_delta(100, 50), 0);
    assert_eq!(counter_delta(50, 100), 50);
    assert_eq!(counter_delta(u64::MAX, 0), 0);
    assert_eq!(rounded_per_second(counter_delta(100, 50) as u128, 1_000_000), 0);
}

#[test]
fn rate_is_delta_over_elapsed() {
    assert_eq!(rounded_per_second(1000, 500_000), 2000);
    let r = Rate::new(1000, 500_000);
    assert_eq!(r.rounded_per_second(), 2000);
    assert!(r.is_active());
}

#[test]
fn rate_rounds_to_nearest() {
    assert_eq!(rounded_per_second(3, 2_000_000), 2);
    assert_eq!(rounded_per_second(1, 3_000_000), 0);
    assert_eq!(rounded_per_second(2, 3_000_000), 1);
    assert_eq!(rounded_per_second(u64::MAX as u128 * 4, 1000), u64::MAX);
    assert_eq!(rounded_per_second(u128::MAX, 1), u64::MAX);
}

#[test]
fn activity_threshold_is_one_byte_per_second() {
    assert!(Rate::new(1, 1_000_000).is_active());
    assert!(!Rate::new(1, 1_000_001).is_active());
    assert!(!Rate::new(0, 1).is_active());
}

#[test]
fn elapsed_is_floored() {
    assert_eq!(effective_elapsed(0), 1000);
    assert_eq!(effective_elapsed(999), 1000);
    assert_eq!(effective_elapsed(250_000), 250_000);
}

#[test]
fn history_push_prepends_and_truncates() {
    let mut h: Vec<u64> = Vec::new();
    for v in 0..(HISTORY_LEN as u64 + 5) {
        push_history(&mut h, v);
    }
    assert_eq!(h.len(), HISTORY_LEN);
    assert_eq!(h[0], HISTORY_LEN as u64 + 4);
    assert_eq!(h[HISTORY_LEN - 1], 5);
}

#[test]
fn positive_value_never_quantizes_to_zero() {
    assert_eq!(scale_units(1, 1000, 24), 1);
    assert_eq!(scale_units(0, 1000, 24), 0);
    assert_eq!(scale_units(1000, 1000, 24), 24);
    assert_eq!(scale_units(500, 1000, 24), 12);
    assert_eq!(scale_units(501, 1000, 24), 13);
    assert_eq!(scale_units(5, 0, 24), 0);
    assert_eq!(scale_units(5, 10, 0), 0);
    assert_eq!(scale_units(u64::MAX, 1, 8), 8);
}

#[test]
fn row_levels_fill_from_baseline() {
    assert_eq!(row_level(20, 0), 8);
    assert_eq!(row_level(20, 1), 8);
    assert_eq!(row_level(20, 2), 4);
    assert_eq!(row_level(20, 3), 0);
}

#[test]
fn window_takes_newest_and_pads_with_oldest() {
    assert_eq!(sparkline_data(&[5, 4, 3, 2, 1], 3), vec![5, 4, 3]);
    assert_eq!(sparkline_data(&[5, 4], 4), vec![5, 4, 4, 4]);
    assert_eq!(sparkline_data(&[], 3), vec![0, 0, 0]);
    assert!(sparkline_data(&[1, 2], 0).is_empty());
}

#[test]
fn scale_is_floored_at_one() {
    assert_eq!(scale_of(&[0, 0]), 1);
    assert_eq!(scale_of(&[]), 1);
    assert_eq!(scale_of(&[3, 9, 2]), 9);
}

#[test]
fn column_cells_split_at_baseline() {
    // Two rows up, two rows down; 12 eighths up and 3 eighths down.
    let col = bar_column(12, 3, 2, 4);
    assert_eq!(
        col,
        vec![BarCell::Rx(4), BarCell::Rx(8), BarCell::Tx(5), BarCell::Blank]
    );
}

#[test]
fn split_graph_mirrors_directions() {
    let g = split_graph(&[10, 5], &[0, 4], 3, 4);
    assert_eq!(g.len(), 3);
    // Newest column: rx at the scale maximum fills both upper rows; tx is zero.
    assert_eq!(g[0], vec![BarCell::Rx(8), BarCell::Rx(8), BarCell::Blank, BarCell::Blank]);
    // Second column: rx 5 of 10 is 8 eighths; tx 4 of 4 fills both lower rows.
    assert_eq!(g[1], vec![BarCell::Blank, BarCell::Rx(8), BarCell::Tx(0), BarCell::Tx(0)]);
    // Padding repeats the oldest sample.
    assert_eq!(g[2], g[1]);
}

#[test]
fn combined_graph_sums_directions() {
    assert_eq!(combined_data(&[1, 2], &[3], 3), vec![4, 5, 5]);
    assert_eq!(combined_data(&[u64::MAX], &[1], 1), vec![u64::MAX]);
    let g = combined_graph(&[4, 0], &[4, 0], 2, 2);
    assert_eq!(g[0], vec![BarCell::Rx(8), BarCell::Rx(8)]);
    assert_eq!(g[1], vec![BarCell::Blank, BarCell::Blank]);
}

#[test]
fn grid_covers_section_exactly() {
    let cases: [(usize, u16, u16, u16); 6] = [
        (5, 100, 37, 28),
        (1, 10, 3, 28),
        (7, 200, 50, 28),
        (3, 2, 9, 28),
        (10, 99, 10, 0),
        (4, 65535, 65535, 1),
    ];
    for (tiles, w, h, min) in cases {
        let g = grid_layout(tiles, w, h, min).expect("drawable");
        let sw: u32 = g.col_widths.iter().map(|x| *x as u32).sum();
        let sh: u32 = g.row_heights.iter().map(|x| *x as u32).sum();
        assert_eq!(sw, w as u32);
        assert_eq!(sh, h as u32);
        assert!(g.columns * g.rows >= tiles);
    }
}

#[test]
fn grid_shape_and_remainders() {
    let g = grid_layout(5, 100, 37, 28).unwrap();
    assert_eq!(g.columns, 3);
    assert_eq!(g.rows, 2);
    assert_eq!(g.row_heights, vec![19, 18]);
    assert_eq!(g.col_widths, vec![33, 33, 34]);
}

#[test]
fn degenerate_grid_draws_nothing() {
    assert!(grid_layout(0, 100, 100, 28).is_none());
    assert!(grid_layout(4, 28, 3, 28).is_none());
    assert!(grid_layout(1, 10, 0, 28).is_none());
}

#[test]
fn physical_names_are_en_and_digits() {
    assert!(is_physical_interface("en0"));
    assert!(is_physical_interface("en12"));
    assert!(!is_physical_interface("en"));
    assert!(!is_physical_interface("eth0"));
    assert!(!is_physical_interface("en0a"));
    assert!(!is_physical_interface("utun3"));
    assert!(!is_physical_interface("lo0"));
}

#[test]
fn up_flag_is_lowest_bit() {
    assert!(is_up(0x1));
    assert!(is_up(0x8043));
    assert!(!is_up(0x8));
}

#[test]
fn hex_colors_parse() {
    assert_eq!(rgb("#7287fd"), Color::Rgb(0x72, 0x87, 0xfd));
    assert_eq!(rgb("A1B2C3"), Color::Rgb(0xa1, 0xb2, 0xc3));
    assert_eq!(rgb("#zz0000"), Color::Rgb(0, 0, 0));
}

#[test]
fn solid_tx_colors_are_darker_shades() {
    assert_eq!(solid_tx_color(Color::Red), Color::Rgb(0xb2, 0x22, 0x22));
    assert_eq!(solid_tx_color(Color::Green), Color::Rgb(0x22, 0x8b, 0x22));
    assert_eq!(solid_tx_color(Color::Reset), Color::Reset);
}

#[test]
fn theme_table_layout() {
    let t = build_themes();
    assert_eq!(t.len(), 17);
    assert_eq!(t[0].name, "Green");
    assert_eq!(t[0].background, Color::Reset);
    assert_eq!(t[7].name, "Catppuccin Latte");
    assert_eq!(t[7].outer, Color::Rgb(0x72, 0x87, 0xfd));
    assert_eq!(t[16].name, "Tokyo Day");
}

#[test]
fn defaults() {
    let d = DisplaySettings::default();
    assert!(d.show_loopback && d.show_virtual && d.show_overview && d.show_split);
    assert!(!d.show_inactive && !d.show_bits);
    assert_eq!(d.section_count(), 3);
    let c = Config::default();
    assert_eq!(c.theme, "Green");
    assert_eq!(c.sort_mode, SortMode::Name);
    assert_eq!(c.interval_ms, 1000);
}
