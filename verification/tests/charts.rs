use thrud::fixed::UNIT;
use thrud::ieee754::fixed_from_bits;
use thrud::storage::encoding::{get_bar_char, percentage_to_bar_level};
use thrud::storage::sqlite::SqliteStorage;
use thrud::storage::{ChartError, ChartType};

fn storage() -> SqliteStorage {
    SqliteStorage::new(Some(String::from("thrud.db")), None)
}

fn percent(whole: i64) -> i64 {
    whole * UNIT
}

fn fixed(value: f64) -> i64 {
    fixed_from_bits(value.to_bits()).unwrap()
}

#[test]
fn bar_chart_of_the_four_quarters() {
    let values = vec![fixed(0.0), fixed(12.5), fixed(50.0), fixed(100.0)];
    let levels: Vec<u8> = values.iter().map(|v| percentage_to_bar_level(*v)).collect();
    assert_eq!(levels, vec![0, 2, 5, 8]);
    let chart = storage().generate_bar_chart(&values, "cpu").unwrap();
    assert_eq!(chart, " ▂▅█..41%|");
}

#[test]
fn bar_levels_follow_the_eighths() {
    assert_eq!(percentage_to_bar_level(0), 0);
    assert_eq!(percentage_to_bar_level(1), 1);
    assert_eq!(percentage_to_bar_level(fixed(12.4)), 1);
    assert_eq!(percentage_to_bar_level(fixed(12.5)), 2);
    assert_eq!(percentage_to_bar_level(fixed(24.9)), 2);
    assert_eq!(percentage_to_bar_level(fixed(25.0)), 3);
    assert_eq!(percentage_to_bar_level(fixed(49.9)), 4);
    assert_eq!(percentage_to_bar_level(fixed(50.0)), 5);
    assert_eq!(percentage_to_bar_level(fixed(75.0)), 7);
    assert_eq!(percentage_to_bar_level(fixed(87.4)), 7);
    assert_eq!(percentage_to_bar_level(fixed(87.5)), 8);
    assert_eq!(percentage_to_bar_level(fixed(99.9)), 8);
    assert_eq!(percentage_to_bar_level(fixed(100.0)), 8);
}

#[test]
fn bar_levels_clamp_what_is_out_of_range() {
    assert_eq!(percentage_to_bar_level(percent(-5)), 0);
    assert_eq!(percentage_to_bar_level(i64::MIN), 0);
    assert_eq!(percentage_to_bar_level(percent(250)), 8);
    assert_eq!(percentage_to_bar_level(i64::MAX), 8);
}

#[test]
fn bar_palette_has_nine_glyphs() {
    let glyphs: String = (0..=8).map(get_bar_char).collect();
    assert_eq!(glyphs, " ▁▂▃▄▅▆▇█");
    assert_eq!(get_bar_char(9), '█');
    assert_eq!(get_bar_char(255), '█');
}

#[test]
fn bar_chart_has_one_glyph_per_value() {
    let values = vec![percent(10), percent(20), percent(30), percent(40), percent(50)];
    let chart = storage().generate_bar_chart(&values, "cpu").unwrap();
    assert_eq!(chart.chars().count(), values.len() + 6);
    assert_eq!(chart, "▁▂▃▄▅..30%|");
}

#[test]
fn bar_chart_is_the_same_every_time() {
    let values = vec![percent(3), percent(97), percent(41), percent(0)];
    let first = storage().generate_bar_chart(&values, "cpu").unwrap();
    let second = storage().generate_bar_chart(&values, "gpu").unwrap();
    assert_eq!(first, second);
}

#[test]
fn bar_chart_of_nothing_is_refused() {
    let values: Vec<i64> = vec![];
    assert_eq!(storage().generate_bar_chart(&values, "cpu"), Err(ChartError::NoData));
    assert_eq!(storage().generate_braille_chart(&values, "cpu"), Err(ChartError::NoData));
}

#[test]
fn annotation_is_right_aligned_to_two() {
    let chart = storage().generate_bar_chart(&[percent(5)], "cpu").unwrap();
    assert_eq!(chart, "▁.. 5%|");
    let chart = storage().generate_bar_chart(&[percent(0)], "cpu").unwrap();
    assert_eq!(chart, " .. 0%|");
    let chart = storage().generate_bar_chart(&[percent(100), percent(100)], "cpu").unwrap();
    assert_eq!(chart, "██..100%|");
}

#[test]
fn annotation_rounds_halves_to_even() {
    let chart = storage().generate_bar_chart(&[fixed(0.5)], "cpu").unwrap();
    assert_eq!(chart, "▁.. 0%|");
    let chart = storage().generate_bar_chart(&[fixed(1.5)], "cpu").unwrap();
    assert_eq!(chart, "▁.. 2%|");
    let chart = storage().generate_bar_chart(&[fixed(2.5)], "cpu").unwrap();
    assert_eq!(chart, "▁.. 2%|");
    let chart = storage().generate_bar_chart(&[fixed(2.51)], "cpu").unwrap();
    assert_eq!(chart, "▁.. 3%|");
    let chart = storage().generate_bar_chart(&[fixed(40.625)], "cpu").unwrap();
    assert_eq!(chart, "▄..41%|");
}

#[test]
fn annotation_averages_the_values_as_given() {
    let chart = storage().generate_bar_chart(&[percent(300), percent(100)], "cpu").unwrap();
    assert_eq!(chart, "██..200%|");
    let chart = storage().generate_bar_chart(&[percent(-30), percent(10)], "cpu").unwrap();
    assert_eq!(chart, " ▁..-10%|");
    let chart = storage().generate_bar_chart(&[percent(-3), percent(-4)], "cpu").unwrap();
    assert_eq!(chart, "  ..-4%|");
}

#[test]
fn braille_levels_follow_the_quarters() {
    let s = storage();
    assert_eq!(s.percentage_to_braille_level(0), 0);
    assert_eq!(s.percentage_to_braille_level(percent(-1)), 0);
    assert_eq!(s.percentage_to_braille_level(1), 1);
    assert_eq!(s.percentage_to_braille_level(percent(25)), 1);
    assert_eq!(s.percentage_to_braille_level(percent(25) + 1), 2);
    assert_eq!(s.percentage_to_braille_level(percent(50)), 2);
    assert_eq!(s.percentage_to_braille_level(percent(50) + 1), 3);
    assert_eq!(s.percentage_to_braille_level(percent(75)), 3);
    assert_eq!(s.percentage_to_braille_level(percent(75) + 1), 4);
    assert_eq!(s.percentage_to_braille_level(percent(100)), 4);
    assert_eq!(s.percentage_to_braille_level(percent(1000)), 4);
}

#[test]
fn braille_table_has_twenty_five_entries() {
    let s = storage();
    let rows = [" ⢀⢠⢰⢸", "⣀⣀⣠⣰⣸", "⣄⣄⣤⣴⣼", "⣆⣆⣦⣶⣾", "⣇⣇⣧⣷⣿"];
    for left in 0..5u8 {
        let row: String = (0..5u8).map(|right| s.get_braille_char(left, right)).collect();
        assert_eq!(row, rows[left as usize]);
    }
    assert_eq!(s.get_braille_char(5, 0), '⣿');
    assert_eq!(s.get_braille_char(0, 9), '⣿');
}

#[test]
fn braille_chart_pairs_the_values() {
    let values = vec![percent(0), percent(0), percent(100), percent(100), percent(30), percent(60)];
    let chart = storage().generate_braille_chart(&values, "cpu").unwrap();
    assert_eq!(chart, " ⣿⣴..48%|");
}

#[test]
fn braille_chart_pairs_a_last_single_value_with_nothing() {
    let values = vec![percent(100), percent(100), percent(100)];
    let chart = storage().generate_braille_chart(&values, "cpu").unwrap();
    assert_eq!(chart, "⣿⣇..100%|");
    assert_eq!(chart.chars().count(), 2 + 7);
    let values = vec![percent(10)];
    let chart = storage().generate_braille_chart(&values, "cpu").unwrap();
    assert_eq!(chart, "⣀..10%|");
}

#[test]
fn chart_type_names_round_trip() {
    assert_eq!(ChartType::Bar.as_str(), "bar");
    assert_eq!(ChartType::Braille.as_str(), "braille");
    assert_eq!(ChartType::from_str("bar"), Some(ChartType::Bar));
    assert_eq!(ChartType::from_str("braille"), Some(ChartType::Braille));
    assert_eq!(ChartType::from_str("pie"), None);
    assert_eq!(ChartType::from_str("Bar"), None);
    assert_eq!(ChartType::from_str(""), None);
}
