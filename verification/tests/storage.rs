use thrud::collectors::types::{Metric, MetricValue};
use thrud::storage::generation::{utilization_from_totals, UtilizationData};
use thrud::storage::recent::{field_of_name, read_fixed, read_whole, RefusedValue, TotalsField};
use thrud::validation::ValidationError;
use thrud::storage::rows::{count_from_row, ChartRow, RoundRow, RowError};
use thrud::storage::{Chart, ChartType, CollectionRound, SqliteStorage, StorageError};

fn storage() -> SqliteStorage {
    SqliteStorage::new(Some(String::from("metrics.db")), None)
}

fn text_metric(name: &str, value: &str) -> Metric {
    Metric::at(String::from(name), MetricValue::String(String::from(value)), 0, vec![])
}

fn totals(perf_total: i64, perf_idle: i64, eff_total: i64, eff_idle: i64, gpu: i64) -> Vec<Metric> {
    vec![
        text_metric("cpu.performance.total_ticks", &perf_total.to_string()),
        text_metric("cpu.performance.idle_ticks", &perf_idle.to_string()),
        text_metric("cpu.efficiency.total_ticks", &eff_total.to_string()),
        text_metric("cpu.efficiency.idle_ticks", &eff_idle.to_string()),
        text_metric("gpu.utilization", &gpu.to_string()),
    ]
}

fn round_data(id: &str, timestamp: i64, perf: (i64, i64), eff: (i64, i64), gpu: i64) -> UtilizationData {
    UtilizationData {
        round_id: String::from(id),
        timestamp,
        perf_total: perf.0,
        perf_idle: perf.1,
        eff_total: eff.0,
        eff_idle: eff.1,
        gpu_util: gpu * 1_000_000,
    }
}

fn chart(metric: &str, chart_type: ChartType, data: &str, timestamp: i64) -> Chart {
    Chart {
        id: None,
        collection_round_id: String::from("round"),
        metric_name: String::from(metric),
        chart_type,
        chart_data: String::from(data),
        data_points: 1,
        timestamp,
    }
}

#[test]
fn store_lives_where_it_is_told_or_below_home() {
    assert_eq!(storage().db_path, "metrics.db");
    let below_home = SqliteStorage::new(None, Some(String::from("/home/me")));
    assert_eq!(below_home.db_path, "/home/me/.thrud/thrud.db");
    let without_home = SqliteStorage::new(None, None);
    assert_eq!(without_home.db_path, "./.thrud/thrud.db");
    let told = SqliteStorage::new(Some(String::from("x.db")), Some(String::from("/home/me")));
    assert_eq!(told.db_path, "x.db");
    assert!(told.rounds.is_empty() && told.metrics.is_empty() && told.charts.is_empty());
}

#[test]
fn round_is_stored_with_all_its_samples() {
    let mut store = storage();
    let round = store.store_round(String::from("a"), 10, totals(1, 2, 3, 4, 5)).unwrap();
    assert_eq!(round, CollectionRound { id: String::from("a"), timestamp: 10, metrics_count: 5 });
    assert_eq!(store.rounds, vec![round]);
    assert_eq!(store.metrics.len(), 5);
    assert!(store.metrics.iter().all(|m| m.collection_round_id == "a"));
    assert_eq!(store.metrics[4].metric, text_metric("gpu.utilization", "5"));
    assert!(store.contains_round("a"));
    assert!(!store.contains_round("b"));
}

#[test]
fn empty_round_is_refused_and_nothing_is_stored() {
    let mut store = storage();
    assert_eq!(store.store_round(String::from("a"), 10, vec![]), Err(StorageError::EmptyCollection));
    assert_eq!(store.store_metrics(vec![]), Err(StorageError::EmptyCollection));
    assert!(store.rounds.is_empty());
    assert!(store.metrics.is_empty());
}

#[test]
fn round_with_a_used_identifier_is_refused_and_nothing_is_stored() {
    let mut store = storage();
    store.store_round(String::from("a"), 10, totals(1, 2, 3, 4, 5)).unwrap();
    let again = store.store_round(String::from("a"), 20, totals(9, 9, 9, 9, 9));
    assert_eq!(again, Err(StorageError::DuplicateRound));
    assert_eq!(store.rounds.len(), 1);
    assert_eq!(store.metrics.len(), 5);
    assert_eq!(store.rounds[0].timestamp, 10);
}

#[test]
fn round_gets_a_fresh_identifier_and_the_present_instant() {
    let mut store = storage();
    let first = store.store_metrics(totals(1, 2, 3, 4, 5)).unwrap();
    let second = store.store_metrics(vec![text_metric("x", "1")]).unwrap();
    assert_ne!(first.id, second.id);
    assert_eq!(first.id.len(), 36);
    assert_eq!(first.metrics_count, 5);
    assert_eq!(second.metrics_count, 1);
    assert!(first.timestamp > 1_600_000_000_000);
    assert_eq!(store.rounds.len(), 2);
    assert_eq!(store.metrics.len(), 6);
    assert_eq!(store.metrics[5].collection_round_id, second.id);
}

#[test]
fn first_round_is_always_stored() {
    for _ in 0..20 {
        let mut store = storage();
        let round = store.store_metrics(vec![text_metric("x", "1")]).unwrap();
        assert_eq!(store.rounds, vec![round]);
        assert_eq!(store.metrics.len(), 1);
    }
}

#[test]
fn stats_count_the_rows_and_find_the_latest_round() {
    let mut store = storage();
    let stats = store.get_stats(None);
    assert_eq!(stats.total_metrics, 0);
    assert_eq!(stats.total_collection_rounds, 0);
    assert_eq!(stats.latest_collection, None);
    assert_eq!(stats.database_size_bytes, None);
    store.store_round(String::from("a"), 30, totals(1, 2, 3, 4, 5)).unwrap();
    store.store_round(String::from("b"), 50, vec![text_metric("x", "1")]).unwrap();
    store.store_round(String::from("c"), 40, vec![text_metric("x", "1")]).unwrap();
    store.store_round(String::from("d"), 50, vec![text_metric("x", "1")]).unwrap();
    let stats = store.get_stats(Some(4096));
    assert_eq!(stats.total_metrics, 8);
    assert_eq!(stats.total_collection_rounds, 4);
    assert_eq!(stats.latest_collection.unwrap().id, "d");
    assert_eq!(stats.database_size_bytes, Some(4096));
}

#[test]
fn values_are_read_as_whole_numbers() {
    let no_integer = Err(ValidationError::NotAnInteger);
    assert_eq!(read_whole(&MetricValue::Integer(-7)), Ok(-7));
    assert_eq!(read_whole(&MetricValue::String(String::from("42"))), Ok(42));
    assert_eq!(read_whole(&MetricValue::String(String::from("0"))), Ok(0));
    assert_eq!(read_whole(&MetricValue::String(String::from("4.2"))), no_integer);
    assert_eq!(read_whole(&MetricValue::String(String::from(""))), no_integer);
    assert_eq!(read_whole(&MetricValue::Float(42.0f64.to_bits())), no_integer);
    assert_eq!(read_whole(&MetricValue::Boolean(true)), no_integer);
}

#[test]
fn values_are_read_as_fixed_point() {
    assert_eq!(read_fixed(&MetricValue::Integer(37)), Ok(37_000_000));
    assert_eq!(read_fixed(&MetricValue::String(String::from("37"))), Ok(37_000_000));
    assert_eq!(read_fixed(&MetricValue::Float(37.5f64.to_bits())), Ok(37_500_000));
    assert_eq!(read_fixed(&MetricValue::Float(0.0f64.to_bits())), Ok(0));
    assert_eq!(
        read_fixed(&MetricValue::String(String::from("37.5"))),
        Err(ValidationError::NotAnInteger)
    );
    assert_eq!(
        read_fixed(&MetricValue::Float(f64::NAN.to_bits())),
        Err(ValidationError::NotFinite)
    );
    assert_eq!(
        read_fixed(&MetricValue::Float(1e300f64.to_bits())),
        Err(ValidationError::OutOfRange)
    );
    assert_eq!(read_fixed(&MetricValue::Boolean(true)), Err(ValidationError::NotAnInteger));
    assert_eq!(read_fixed(&MetricValue::Integer(i64::MAX)), Err(ValidationError::OutOfRange));
    assert_eq!(read_fixed(&MetricValue::Integer(i64::MIN)), Err(ValidationError::OutOfRange));
    assert_eq!(
        read_fixed(&MetricValue::Integer(9_223_372_036_854)),
        Ok(9_223_372_036_854_000_000)
    );
}

#[test]
fn totals_are_fed_by_five_names() {
    assert_eq!(field_of_name("cpu.performance.total_ticks"), Some(TotalsField::PerformanceTotal));
    assert_eq!(field_of_name("cpu.performance.idle_ticks"), Some(TotalsField::PerformanceIdle));
    assert_eq!(field_of_name("cpu.efficiency.total_ticks"), Some(TotalsField::EfficiencyTotal));
    assert_eq!(field_of_name("cpu.efficiency.idle_ticks"), Some(TotalsField::EfficiencyIdle));
    assert_eq!(field_of_name("gpu.utilization"), Some(TotalsField::GraphicsUtilization));
    assert_eq!(field_of_name("gpu_utilization"), None);
    assert_eq!(field_of_name("cpu.efficiency_core.0.idle_ticks"), None);
}

#[test]
fn recent_rounds_come_most_recent_first() {
    let mut store = storage();
    store.store_round(String::from("old"), 100, totals(1000, 900, 500, 400, 10)).unwrap();
    store.store_round(String::from("new"), 300, totals(3000, 2500, 900, 600, 30)).unwrap();
    store.store_round(String::from("mid"), 200, totals(2000, 1700, 700, 500, 20)).unwrap();
    store.store_round(String::from("other"), 250, vec![text_metric("cpu.unknown", "1")]).unwrap();
    let data = store.get_recent_utilization_data(10).unwrap();
    assert_eq!(
        data,
        vec![
            round_data("new", 300, (3000, 2500), (900, 600), 30),
            round_data("mid", 200, (2000, 1700), (700, 500), 20),
            round_data("old", 100, (1000, 900), (500, 400), 10),
        ]
    );
}

#[test]
fn recent_rounds_are_read_five_samples_for_each() {
    let mut store = storage();
    store.store_round(String::from("old"), 100, totals(1000, 900, 500, 400, 10)).unwrap();
    store.store_round(String::from("mid"), 200, totals(2000, 1700, 700, 500, 20)).unwrap();
    let mut partial = totals(3000, 2500, 900, 600, 30);
    partial.truncate(2);
    store.store_round(String::from("new"), 300, partial).unwrap();
    assert!(store.get_recent_utilization_data(0).unwrap().is_empty());
    let data = store.get_recent_utilization_data(1).unwrap();
    assert_eq!(
        data,
        vec![
            round_data("new", 300, (3000, 2500), (0, 0), 0),
            round_data("mid", 200, (2000, 1700), (700, 0), 0),
        ]
    );
    assert_eq!(store.get_recent_utilization_data(2).unwrap().len(), 3);
    assert_eq!(store.get_recent_utilization_data(usize::MAX).unwrap().len(), 3);
}

#[test]
fn recent_rounds_take_the_later_sample_of_a_name() {
    let mut store = storage();
    let metrics = vec![
        text_metric("cpu.performance.total_ticks", "1"),
        text_metric("cpu.performance.total_ticks", "2"),
        Metric::at(String::from("gpu.utilization"), MetricValue::Float(12.5f64.to_bits()), 0, vec![]),
        Metric::at(String::from("cpu.efficiency.idle_ticks"), MetricValue::Integer(8), 0, vec![]),
        text_metric("cpu.temperature", "warm"),
    ];
    store.store_round(String::from("a"), 100, metrics).unwrap();
    let data = store.get_recent_utilization_data(1).unwrap();
    assert_eq!(data.len(), 1);
    assert_eq!(data[0].perf_total, 2);
    assert_eq!(data[0].gpu_util, 12_500_000);
    assert_eq!(data[0].eff_idle, 8);
    assert_eq!(data[0].eff_total, 0);
}

#[test]
fn recent_rounds_refuse_a_value_that_cannot_be_read() {
    let refused = |round: &str, name: &str, reason: ValidationError| RefusedValue {
        round_id: String::from(round),
        name: String::from(name),
        reason,
    };
    let mut store = storage();
    store.store_round(String::from("old"), 100, totals(1000, 900, 500, 400, 10)).unwrap();
    let bad = vec![
        text_metric("cpu.performance.total_ticks", "2000"),
        text_metric("cpu.efficiency.total_ticks", "many"),
        Metric::at(String::from("gpu.utilization"), MetricValue::Float(f64::NAN.to_bits()), 0, vec![]),
    ];
    store.store_round(String::from("new"), 200, bad).unwrap();
    assert_eq!(
        store.get_recent_utilization_data(2),
        Err(refused("new", "cpu.efficiency.total_ticks", ValidationError::NotAnInteger))
    );
    assert_eq!(
        store.generate_and_store_charts("new", 1),
        Err(refused("new", "cpu.efficiency.total_ticks", ValidationError::NotAnInteger))
    );
    assert!(store.charts.is_empty());
    store.metrics[6].metric.value = MetricValue::Integer(700);
    assert_eq!(
        store.get_recent_utilization_data(2),
        Err(refused("new", "gpu.utilization", ValidationError::NotFinite))
    );
    store.metrics[7].metric.value = MetricValue::Boolean(true);
    assert_eq!(
        store.get_recent_utilization_data(2),
        Err(refused("new", "gpu.utilization", ValidationError::NotAnInteger))
    );
    store.metrics[7].metric.value = MetricValue::Integer(i64::MAX);
    assert_eq!(
        store.get_recent_utilization_data(2),
        Err(refused("new", "gpu.utilization", ValidationError::OutOfRange))
    );
    store.metrics[7].metric.value = MetricValue::Integer(20);
    assert_eq!(store.get_recent_utilization_data(2).unwrap().len(), 2);
    store.metrics[0].metric.value = MetricValue::Boolean(false);
    assert_eq!(
        store.get_recent_utilization_data(2),
        Err(refused("old", "cpu.performance.total_ticks", ValidationError::NotAnInteger))
    );
    let budget = store.get_recent_utilization_data(0);
    assert_eq!(budget, Ok(vec![]));
}

#[test]
fn utilization_between_two_totals() {
    assert_eq!(utilization_from_totals(2000, 1700, 1000, 900), 20_000_000);
    assert_eq!(utilization_from_totals(1000, 900, 1000, 900), 0);
    assert_eq!(utilization_from_totals(900, 0, 1000, 0), 0);
    assert_eq!(utilization_from_totals(1100, 0, 1000, 50), 100_000_000);
    assert_eq!(utilization_from_totals(1100, 500, 1000, 0), 0);
    assert_eq!(utilization_from_totals(i64::MAX, i64::MIN, i64::MIN, i64::MAX), 100_000_000);
    assert_eq!(utilization_from_totals(3, 1, 0, 0), 66_666_666);
}

#[test]
fn series_has_one_value_per_pair_of_rounds() {
    let store = storage();
    let data = vec![
        round_data("c", 300, (3000, 2500), (900, 600), 30),
        round_data("b", 200, (2000, 1700), (700, 500), 20),
        round_data("a", 100, (1000, 900), (500, 400), 10),
    ];
    assert_eq!(
        store.extract_metric_values(&data, "performance_cores_utilization"),
        vec![20_000_000, 20_000_000]
    );
    assert_eq!(
        store.extract_metric_values(&data, "efficiency_cores_utilization"),
        vec![50_000_000, 50_000_000]
    );
    assert_eq!(store.extract_metric_values(&data, "gpu_utilization"), vec![30_000_000, 20_000_000]);
    assert_eq!(store.extract_metric_values(&data, "fan_speed"), vec![0, 0]);
    assert!(store.extract_metric_values(&data[..1].to_vec(), "gpu_utilization").is_empty());
    assert!(store.extract_metric_values(&vec![], "gpu_utilization").is_empty());
}

#[test]
fn charts_are_generated_for_the_three_series() {
    let mut store = storage();
    let data = vec![
        round_data("c", 300, (3000, 2500), (900, 600), 30),
        round_data("b", 200, (2000, 1700), (700, 500), 20),
        round_data("a", 100, (1000, 900), (500, 400), 10),
    ];
    store.generate_and_store_charts_from("c", 2, &data, 999);
    let summary: Vec<(&str, ChartType, &str, usize)> = store
        .charts
        .iter()
        .map(|c| (c.metric_name.as_str(), c.chart_type, c.chart_data.as_str(), c.data_points))
        .collect();
    assert_eq!(
        summary,
        vec![
            ("performance_cores_utilization", ChartType::Bar, "▂▂..20%|", 2),
            ("performance_cores_utilization", ChartType::Braille, "⣀..20%|", 1),
            ("efficiency_cores_utilization", ChartType::Bar, "▅▅..50%|", 2),
            ("efficiency_cores_utilization", ChartType::Braille, "⣤..50%|", 1),
            ("gpu_utilization", ChartType::Bar, "▃▂..25%|", 2),
            ("gpu_utilization", ChartType::Braille, "⣄..25%|", 1),
        ]
    );
    assert!(store.charts.iter().all(|c| c.collection_round_id == "c"
        && c.timestamp == 999
        && c.id.is_none()));
}

#[test]
fn charts_need_two_rounds() {
    let mut store = storage();
    store.store_chart(&chart("gpu_utilization", ChartType::Bar, "x", 1));
    store.generate_and_store_charts_from("a", 1, &vec![], 999);
    assert_eq!(store.charts.len(), 1);
    let one = vec![round_data("a", 100, (1000, 900), (500, 400), 10)];
    store.generate_and_store_charts_from("a", 1, &one, 999);
    assert_eq!(store.charts.len(), 1);
    store.generate_and_store_charts_from("a", 0, &one, 999);
    assert_eq!(store.charts.len(), 1);
}

#[test]
fn charts_need_enough_values() {
    let data = vec![
        round_data("c", 300, (3000, 2500), (900, 600), 30),
        round_data("b", 200, (2000, 1700), (700, 500), 20),
        round_data("a", 100, (1000, 900), (500, 400), 10),
    ];
    let mut store = storage();
    store.generate_and_store_charts_from("c", 3, &data, 999);
    assert!(store.charts.is_empty());
    store.generate_and_store_charts_from("c", 0, &data, 999);
    assert!(store.charts.is_empty());
    store.generate_and_store_charts_from("c", 1, &data, 999);
    assert_eq!(store.charts.len(), 6);
    assert_eq!(store.charts[0].chart_data, "▂..20%|");
    assert_eq!(store.charts[1].chart_data, "⣀..20%|");
    assert_eq!(store.charts[1].data_points, 1);
    let two = data[..2].to_vec();
    let mut store = storage();
    store.generate_and_store_charts_from("c", 1, &two, 999);
    assert_eq!(store.charts.len(), 3);
    assert!(store.charts.iter().all(|c| c.chart_type == ChartType::Bar));
}

#[test]
fn charts_of_a_series_are_appended() {
    let mut store = storage();
    store.store_charts_of_metric("r", "m", &vec![50_000_000, 100_000_000, 0], 3, 5);
    assert_eq!(store.charts.len(), 1);
    assert_eq!(store.charts[0].chart_data, "▅█ ..50%|");
    store.store_charts_of_metric("r", "m", &vec![50_000_000, 100_000_000, 0, 0], 3, 5);
    assert_eq!(store.charts.len(), 3);
    assert_eq!(store.charts[2].chart_data, "⣼ ..38%|");
    assert_eq!(store.charts[2].data_points, 2);
    store.store_charts_of_metric("r", "m", &vec![1], 2, 5);
    assert_eq!(store.charts.len(), 3);
}

#[test]
fn charts_are_generated_from_the_stored_rounds() {
    let mut store = storage();
    store.generate_and_store_charts("none", 1).unwrap();
    assert!(store.charts.is_empty());
    store.store_round(String::from("a"), 100, totals(1000, 900, 500, 400, 10)).unwrap();
    store.generate_and_store_charts("a", 1).unwrap();
    assert!(store.charts.is_empty());
    store.store_round(String::from("b"), 200, totals(2000, 1700, 700, 500, 20)).unwrap();
    store.generate_and_store_charts("b", 1).unwrap();
    assert_eq!(store.charts.len(), 3);
    assert_eq!(store.charts[0].chart_data, "▂..20%|");
    assert_eq!(store.charts[1].chart_data, "▅..50%|");
    assert_eq!(store.charts[2].chart_data, "▂..20%|");
    store.store_round(String::from("c"), 300, totals(3000, 2500, 900, 600, 30)).unwrap();
    store.generate_and_store_charts("c", 1).unwrap();
    assert_eq!(store.charts.len(), 6);
    assert_eq!(store.charts[3].chart_data, "▂..20%|");
    assert_eq!(store.charts[5].chart_data, "▃..30%|");
    assert!(store.charts[3..].iter().all(|c| c.collection_round_id == "c"));
    store.generate_and_store_charts("c", 2).unwrap();
    assert_eq!(store.charts.len(), 12);
    assert_eq!(store.charts[10].chart_data, "▃▂..25%|");
    assert_eq!(store.charts[11].chart_data, "⣄..25%|");
    assert_eq!(store.rounds.len(), 3);
    assert_eq!(store.metrics.len(), 15);
    store.generate_and_store_charts("c", usize::MAX).unwrap();
    assert_eq!(store.charts.len(), 12);
}

#[test]
fn cache_returns_the_latest_charts_first() {
    let mut store = storage();
    store.store_chart(&chart("cpu", ChartType::Bar, "first", 10));
    store.store_chart(&chart("gpu", ChartType::Bar, "second", 30));
    store.store_chart(&chart("cpu", ChartType::Braille, "third", 40));
    store.store_chart(&chart("fan", ChartType::Bar, "fourth", 50));
    store.store_chart(&chart("cpu", ChartType::Bar, "fifth", 30));
    store.store_chart(&chart("gpu", ChartType::Bar, "sixth", 20));
    let data = |charts: Vec<Chart>| -> Vec<String> {
        charts.into_iter().map(|c| c.chart_data).collect()
    };
    let latest = store.get_latest_charts(&["cpu", "gpu"], &ChartType::Bar, 10);
    assert_eq!(data(latest), vec!["fifth", "second", "sixth", "first"]);
    let latest = store.get_latest_charts(&["cpu", "gpu"], &ChartType::Bar, 2);
    assert_eq!(data(latest), vec!["fifth", "second"]);
    let latest = store.get_latest_charts(&["cpu"], &ChartType::Braille, 1);
    assert_eq!(data(latest), vec!["third"]);
    assert!(store.get_latest_charts(&["cpu", "gpu"], &ChartType::Bar, 0).is_empty());
    assert!(store.get_latest_charts(&[], &ChartType::Bar, 5).is_empty());
    assert!(store.get_latest_charts(&["gpu"], &ChartType::Braille, 5).is_empty());
    assert!(SqliteStorage::is_named(&["a", "b"], "b"));
    assert!(!SqliteStorage::is_named(&["a", "b"], "c"));
}

#[test]
fn cache_numbers_its_rows_itself() {
    let mut store = storage();
    let mut numbered = chart("cpu", ChartType::Bar, "numbered", 10);
    numbered.id = Some(7);
    store.store_chart(&numbered);
    assert_eq!(store.charts[0].id, None);
    let latest = store.get_latest_charts(&["cpu"], &ChartType::Bar, 1);
    assert_eq!(latest, vec![chart("cpu", ChartType::Bar, "numbered", 10)]);
    assert!(store.get_latest_charts(&["cpu"], &ChartType::Braille, 1).is_empty());
    store.charts[0].id = Some(9);
    let latest = store.get_latest_charts(&["cpu"], &ChartType::Bar, 1);
    assert_eq!(latest[0].id, None);
    assert_eq!(store.charts[0].id, Some(9));
}

#[test]
fn cache_appends_a_chart_that_is_stored_again() {
    let mut store = storage();
    let same = chart("cpu", ChartType::Bar, "same", 10);
    store.store_chart(&same);
    store.store_chart(&same);
    assert_eq!(store.charts.len(), 2);
    assert_eq!(store.get_latest_charts(&["cpu"], &ChartType::Bar, 5).len(), 2);
}

#[test]
fn chart_is_read_from_its_row() {
    let row = |chart_type: &str, data_points: i64, timestamp: &str| ChartRow {
        collection_round_id: String::from("r"),
        metric_name: String::from("gpu_utilization"),
        chart_type: String::from(chart_type),
        chart_data: String::from("▃..30%|"),
        data_points,
        timestamp: String::from(timestamp),
    };
    let read = Chart::from_row(row("bar", 3, "2001-09-09T01:46:40.555+00:00")).unwrap();
    assert_eq!(read.timestamp, 1_000_000_000_555);
    assert_eq!(read.chart_type, ChartType::Bar);
    assert_eq!(read.data_points, 3);
    assert_eq!(read.chart_data, "▃..30%|");
    assert_eq!(read.id, None);
    let read = Chart::from_row(row("braille", 0, "1970-01-01T01:00:00+01:00")).unwrap();
    assert_eq!(read.timestamp, 0);
    assert_eq!(read.chart_type, ChartType::Braille);
    let bad = Chart::from_row(row("pie", -1, "yesterday"));
    assert_eq!(bad.err(), Some(RowError::InvalidChartType));
    let bad = Chart::from_row(row("bar", -1, "yesterday"));
    assert_eq!(bad.err(), Some(RowError::InvalidTimestamp));
    let bad = Chart::from_row(row("bar", -1, "2001-09-09T01:46:40Z"));
    assert_eq!(bad.err(), Some(RowError::InvalidCount));
    let bad = Chart::from_parts(row("bar", 1, ""), None, Some(5));
    assert_eq!(bad.err(), Some(RowError::InvalidChartType));
    let good = Chart::from_parts(row("", 1, ""), Some(ChartType::Bar), Some(5)).unwrap();
    assert_eq!(good.timestamp, 5);
}

#[test]
fn chart_is_written_as_a_row() {
    let written = chart("cpu", ChartType::Braille, "⣠..25%|", 1_000_000_000_555).to_row().unwrap();
    assert_eq!(
        written,
        ChartRow {
            collection_round_id: String::from("round"),
            metric_name: String::from("cpu"),
            chart_type: String::from("braille"),
            chart_data: String::from("⣠..25%|"),
            data_points: 1,
            timestamp: String::from("2001-09-09T01:46:40.555+00:00"),
        }
    );
    let back = Chart::from_row(written).unwrap();
    assert_eq!(back.timestamp, 1_000_000_000_555);
    let bad = chart("cpu", ChartType::Bar, "", i64::MAX).to_row();
    assert_eq!(bad.err(), Some(RowError::InvalidTimestamp));
    let bad = chart("cpu", ChartType::Bar, "", 0).to_parts(None);
    assert_eq!(bad.err(), Some(RowError::InvalidTimestamp));
    let mut many = chart("cpu", ChartType::Bar, "", 0);
    many.data_points = usize::MAX;
    assert_eq!(many.to_row().err(), Some(RowError::InvalidCount));
}

#[test]
fn round_is_read_from_and_written_as_a_row() {
    let row = RoundRow {
        id: String::from("r"),
        timestamp: String::from("2001-09-09T01:46:40.555+00:00"),
        metrics_count: 12,
    };
    let round = CollectionRound::from_row(row).unwrap();
    assert_eq!(
        round,
        CollectionRound { id: String::from("r"), timestamp: 1_000_000_000_555, metrics_count: 12 }
    );
    let written = round.to_row().unwrap();
    assert_eq!(written.timestamp, "2001-09-09T01:46:40.555+00:00");
    assert_eq!(written.metrics_count, 12);
    let bad = RoundRow { id: String::from("r"), timestamp: String::from("now"), metrics_count: 1 };
    assert_eq!(CollectionRound::from_row(bad).err(), Some(RowError::InvalidTimestamp));
    let bad = RoundRow {
        id: String::from("r"),
        timestamp: String::from("2001-09-09T01:46:40Z"),
        metrics_count: -1,
    };
    assert_eq!(CollectionRound::from_row(bad).err(), Some(RowError::InvalidCount));
    let unwritable = CollectionRound { id: String::from("r"), timestamp: i64::MIN, metrics_count: 1 };
    assert_eq!(unwritable.to_row().err(), Some(RowError::InvalidTimestamp));
    assert_eq!(unwritable.to_parts(None).err(), Some(RowError::InvalidTimestamp));
    assert_eq!(count_from_row(0), Some(0));
    assert_eq!(count_from_row(-1), None);
    assert_eq!(count_from_row(i64::MAX), Some(i64::MAX as usize));
}
