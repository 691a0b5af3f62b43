use thrud::collectors::types::{CoreType, Metric, MetricValue};
use thrud::storage::aggregations::apple_silicon_cpu::{
    aggregate_class, cluster_aggregates, core_rate, per_cluster_aggregates, per_core_rates,
    AppleSiliconCPU, RateSum, SumOutOfRange,
};
use thrud::storage::aggregations::rates::{
    core_ids, partition_rates, prepare, rate_of_pair, rate_of_partition, PartitionRate, Rate,
    TickCounter, TickSample, DEFAULT_WINDOW_SECONDS, MAX_PAIR_RATE,
};
use thrud::storage::aggregations::samples::{tagged_i32, tick_sample, tick_samples, RefusedSample};
use thrud::storage::aggregations::{
    Aggregation, AggregationError, AggregationFailure, AggregationRegistry,
};
use thrud::utilization::Share;
use thrud::validation::ValidationError;
use thrud::wide::Wide;

fn sample(counter: TickCounter, core_id: i32, timestamp: i64, ticks: i64) -> TickSample {
    TickSample {
        counter,
        core_id,
        core_type: CoreType::Efficiency,
        cluster_id: Some(0),
        timestamp,
        ticks,
    }
}

fn rate(counter: TickCounter, core_id: i32, core_type: CoreType, per_second: u128) -> PartitionRate {
    PartitionRate {
        counter,
        core_id,
        core_type,
        cluster_id: Some(0),
        rate: whole_rate(per_second),
        computed_at: 0,
    }
}

fn tags(core_id: &str, core_type: &str, cluster_id: &str) -> Vec<(String, String)> {
    vec![
        (String::from("core_id"), String::from(core_id)),
        (String::from("core_type"), String::from(core_type)),
        (String::from("cluster_id"), String::from(cluster_id)),
    ]
}

fn tick_metric(name: &str, ticks: i64, timestamp: i64, metadata: &Vec<(String, String)>) -> Metric {
    Metric::at(String::from(name), MetricValue::Integer(ticks), timestamp, metadata.clone())
}

fn whole_rate(per_second: u128) -> Rate {
    Rate { numerator: per_second * 1000, denominator: 1000, millionths: per_second * 1_000_000 }
}

fn greatest_rate() -> Rate {
    Rate {
        numerator: 18_446_744_073_709_551_615_000,
        denominator: 1,
        millionths: MAX_PAIR_RATE,
    }
}

fn greatest(counter: TickCounter, core_id: i32, core_type: CoreType) -> PartitionRate {
    let mut greatest = rate(counter, core_id, core_type, 1);
    greatest.rate = greatest_rate();
    greatest
}

fn as_number(rate: &Rate) -> f64 {
    rate.numerator as f64 / rate.denominator as f64
}

fn wide(number: &Wide) -> f64 {
    number.hi as f64 * 2f64.powi(128) + number.lo as f64
}

fn per_second(sum: &RateSum) -> f64 {
    wide(&sum.wide) / 2f64.powi(90)
}

fn as_percent(share: &Share) -> f64 {
    100.0 * (wide(&share.part) / wide(&share.whole))
}

fn close(found: f64, expected: f64) -> bool {
    (found - expected).abs() <= 1e-9 * expected.abs()
}

#[test]
fn rate_of_an_idle_counter() {
    let earlier = sample(TickCounter::Idle, 0, 1000, 8500);
    let later = sample(TickCounter::Idle, 0, 1100, 8850);
    let rate = rate_of_pair(&earlier, &later).unwrap();
    assert_eq!(rate.rate.millionths, 3_500_000_000);
    assert_eq!(rate.rate, Rate { numerator: 350_000, denominator: 100, millionths: 3_500_000_000 });
    assert_eq!(as_number(&rate.rate), 3500.0);
    assert_eq!(rate.counter, TickCounter::Idle);
    assert_eq!(rate.core_id, 0);
    assert_eq!(rate.computed_at, 1100);
}

#[test]
fn rate_is_the_quotient_rounded_down() {
    let earlier = sample(TickCounter::User, 3, 0, 0);
    let later = sample(TickCounter::User, 3, 3000, 1);
    assert_eq!(rate_of_pair(&earlier, &later).unwrap().rate.millionths, 333_333);
    let later = sample(TickCounter::User, 3, 7, 1);
    assert_eq!(rate_of_pair(&earlier, &later).unwrap().rate.millionths, 142_857_142);
    let later = sample(TickCounter::User, 3, 1, 0);
    assert_eq!(rate_of_pair(&earlier, &later).unwrap().rate.millionths, 0);
}

#[test]
fn rate_is_stated_without_loss() {
    for (ticks, millis) in [(1i64, 7000i64), (100, 3000), (350, 100), (1, 1), (7, 3), (0, 5)] {
        let earlier = sample(TickCounter::User, 3, 1_000, 40);
        let later = sample(TickCounter::User, 3, 1_000 + millis, 40 + ticks);
        let rate = rate_of_pair(&earlier, &later).unwrap().rate;
        assert_eq!(rate.numerator, ticks as u128 * 1000);
        assert_eq!(rate.denominator, millis as u64);
        let expected = ticks as f64 / (millis as f64 / 1000.0);
        assert!(close(as_number(&rate), expected), "{} in {}", ticks, millis);
        assert_eq!(rate.millionths, ticks as u128 * 1_000_000_000 / millis as u128);
    }
}

#[test]
fn core_row_states_its_rates_without_loss() {
    let samples = vec![
        sample(TickCounter::Nice, 2, 1_000, 5),
        sample(TickCounter::Nice, 2, 8_000, 6),
    ];
    let row = core_rate(&samples, 2).unwrap();
    assert_eq!(row.nice_rate, Rate { numerator: 1000, denominator: 7000, millionths: 142_857 });
    assert!(close(as_number(&row.nice_rate), 1.0 / 7.0));
    assert_eq!(row.total_active_rate.millionths, 142_857);
    assert!(close(per_second(&row.total_active_rate), 1.0 / 7.0));
    assert_eq!(as_percent(&row.utilization_percent), 100.0);
}

#[test]
fn core_row_sums_rates_of_different_spans() {
    let samples = vec![
        sample(TickCounter::User, 2, 1_000, 5),
        sample(TickCounter::System, 2, 2_000, 0),
        sample(TickCounter::Idle, 2, 5_000, 0),
        sample(TickCounter::User, 2, 8_000, 6),
        sample(TickCounter::Idle, 2, 8_000, 1),
        sample(TickCounter::System, 2, 13_000, 2),
    ];
    let row = core_rate(&samples, 2).unwrap();
    let user = 1.0 / 7.0;
    let system = 2.0 / 11.0;
    let idle = 1.0 / 3.0;
    assert!(close(as_number(&row.user_rate), user));
    assert!(close(as_number(&row.system_rate), system));
    assert!(close(as_number(&row.idle_rate), idle));
    assert!(close(per_second(&row.total_active_rate), user + system));
    assert!(close(
        as_percent(&row.utilization_percent),
        100.0 * (user + system) / (user + system + idle)
    ));
    assert_eq!(row.total_active_rate.millionths, 142_857 + 181_818);
}

#[test]
fn rate_is_made_from_growth_and_time() {
    assert_eq!(
        Rate::from_growth(350, 100),
        Some(Rate { numerator: 350_000, denominator: 100, millionths: 3_500_000_000 })
    );
    assert_eq!(
        Rate::from_growth(1, 7000),
        Some(Rate { numerator: 1000, denominator: 7000, millionths: 142_857 })
    );
    assert_eq!(Rate::from_growth(0, 1), Some(Rate { numerator: 0, denominator: 1, millionths: 0 }));
    assert_eq!(Rate::from_growth(u64::MAX, 1), Some(greatest_rate()));
    assert_eq!(Rate::from_growth(5, 0), None);
    assert!(Rate::from_growth(7, 3).unwrap().is_valid());
    assert!(greatest_rate().is_valid());
    assert!(whole_rate(30).is_valid());
    assert!(!Rate { numerator: 1, denominator: 0, millionths: 0 }.is_valid());
    assert!(!Rate { numerator: 1000, denominator: 7000, millionths: 142_858 }.is_valid());
    assert!(!Rate { numerator: u128::MAX, denominator: 1, millionths: 0 }.is_valid());
    let earlier = sample(TickCounter::User, 3, 10, 40);
    let later = sample(TickCounter::User, 3, 17, 49);
    assert_eq!(Some(rate_of_pair(&earlier, &later).unwrap().rate), Rate::from_growth(9, 7));
}

#[test]
fn rate_of_the_widest_pair_is_the_greatest() {
    let earlier = sample(TickCounter::User, 0, 0, i64::MIN);
    let later = sample(TickCounter::User, 0, 1, i64::MAX);
    assert_eq!(rate_of_pair(&earlier, &later).unwrap().rate.millionths, MAX_PAIR_RATE);
    let earlier = sample(TickCounter::User, 0, i64::MIN, 0);
    let later = sample(TickCounter::User, 0, i64::MAX, 1);
    assert_eq!(rate_of_pair(&earlier, &later).unwrap().rate.millionths, 0);
}

#[test]
fn pair_without_growth_or_time_gives_no_rate() {
    let earlier = sample(TickCounter::User, 0, 1000, 100);
    assert_eq!(rate_of_pair(&earlier, &sample(TickCounter::User, 0, 2000, 99)), None);
    assert_eq!(rate_of_pair(&earlier, &sample(TickCounter::User, 0, 1000, 200)), None);
    assert_eq!(rate_of_pair(&earlier, &sample(TickCounter::User, 0, 999, 200)), None);
    assert_eq!(rate_of_pair(&earlier, &earlier), None);
    let flat = rate_of_pair(&earlier, &sample(TickCounter::User, 0, 2000, 100)).unwrap();
    assert_eq!(flat.rate, Rate { numerator: 0, denominator: 1000, millionths: 0 });
}

#[test]
fn partition_takes_its_latest_valid_pair() {
    let samples = vec![
        sample(TickCounter::User, 0, 1000, 100),
        sample(TickCounter::User, 0, 2000, 200),
        sample(TickCounter::User, 0, 3000, 500),
    ];
    let rate = rate_of_partition(&samples, TickCounter::User, 0).unwrap();
    assert_eq!(rate.rate.millionths, 300_000_000);
    assert_eq!(rate.computed_at, 3000);
}

#[test]
fn partition_with_one_sample_has_no_rate() {
    let samples = vec![sample(TickCounter::User, 0, 1000, 100)];
    assert_eq!(rate_of_partition(&samples, TickCounter::User, 0), None);
    assert_eq!(rate_of_partition(&vec![], TickCounter::User, 0), None);
}

#[test]
fn reset_pair_is_skipped() {
    let samples = vec![
        sample(TickCounter::User, 0, 1000, 100),
        sample(TickCounter::User, 0, 2000, 200),
        sample(TickCounter::User, 0, 3000, 50),
    ];
    let rate = rate_of_partition(&samples, TickCounter::User, 0).unwrap();
    assert_eq!(rate.rate.millionths, 100_000_000);
    assert_eq!(rate.computed_at, 2000);
}

#[test]
fn reset_pair_alone_gives_no_rate() {
    let samples =
        vec![sample(TickCounter::User, 0, 1000, 100), sample(TickCounter::User, 0, 2000, 99)];
    assert_eq!(rate_of_partition(&samples, TickCounter::User, 0), None);
    assert!(partition_rates(&samples).is_empty());
    assert!(per_core_rates(&samples).is_empty());
}

#[test]
fn rate_resumes_after_a_reset() {
    let samples = vec![
        sample(TickCounter::User, 0, 1000, 100),
        sample(TickCounter::User, 0, 2000, 10),
        sample(TickCounter::User, 0, 3000, 40),
    ];
    let rate = rate_of_partition(&samples, TickCounter::User, 0).unwrap();
    assert_eq!(rate.rate.millionths, 30_000_000);
}

#[test]
fn samples_of_one_instant_are_skipped() {
    let samples = vec![
        sample(TickCounter::User, 0, 1000, 100),
        sample(TickCounter::User, 0, 2000, 200),
        sample(TickCounter::User, 0, 2000, 300),
    ];
    let rate = rate_of_partition(&samples, TickCounter::User, 0).unwrap();
    assert_eq!(rate.rate.millionths, 100_000_000);
    let samples =
        vec![sample(TickCounter::User, 0, 1000, 100), sample(TickCounter::User, 0, 1000, 300)];
    assert_eq!(rate_of_partition(&samples, TickCounter::User, 0), None);
}

#[test]
fn partitions_are_never_differenced_against_each_other() {
    let samples = vec![
        sample(TickCounter::User, 0, 1000, 100),
        sample(TickCounter::User, 1, 2000, 900),
        sample(TickCounter::System, 0, 2500, 5000),
        sample(TickCounter::User, 0, 3000, 300),
    ];
    let rate = rate_of_partition(&samples, TickCounter::User, 0).unwrap();
    assert_eq!(rate.rate.millionths, 100_000_000);
    assert_eq!(rate_of_partition(&samples, TickCounter::User, 1), None);
    assert_eq!(rate_of_partition(&samples, TickCounter::System, 0), None);
}

#[test]
fn window_keeps_what_is_after_its_opening_and_not_after_now() {
    let samples = vec![
        sample(TickCounter::User, 0, 40_000, 1),
        sample(TickCounter::User, 0, 40_001, 2),
        sample(TickCounter::User, 0, 100_000, 3),
        sample(TickCounter::User, 0, 100_001, 4),
    ];
    let prepared = prepare(&samples, 100_000, 60);
    let times: Vec<i64> = prepared.iter().map(|s| s.timestamp).collect();
    assert_eq!(times, vec![40_001, 100_000]);
    assert!(prepare(&samples, 100_000, 0).is_empty());
    assert!(prepare(&samples, 100_000, -5).is_empty());
    assert_eq!(prepare(&samples, i64::MAX, i64::MAX).len(), 4);
    assert_eq!(prepare(&samples, i64::MIN, i64::MAX).len(), 0);
}

#[test]
fn window_puts_samples_in_time_order() {
    let samples = vec![
        sample(TickCounter::User, 0, 3000, 300),
        sample(TickCounter::User, 0, 1000, 100),
        sample(TickCounter::User, 0, 2000, 150),
        sample(TickCounter::User, 0, 2000, 160),
    ];
    let prepared = prepare(&samples, 5000, 60);
    let ticks: Vec<i64> = prepared.iter().map(|s| s.ticks).collect();
    assert_eq!(ticks, vec![100, 150, 160, 300]);
    let rate = rate_of_partition(&prepared, TickCounter::User, 0).unwrap();
    assert_eq!(rate.rate.millionths, 140_000_000);
}

#[test]
fn cores_are_listed_once_and_ascending() {
    let samples = vec![
        sample(TickCounter::User, 7, 1, 1),
        sample(TickCounter::User, -2, 1, 1),
        sample(TickCounter::Idle, 7, 1, 1),
        sample(TickCounter::User, 3, 1, 1),
        sample(TickCounter::User, -2, 2, 1),
    ];
    assert_eq!(core_ids(&samples), vec![-2, 3, 7]);
    assert_eq!(core_ids(&vec![]), Vec::<i32>::new());
}

#[test]
fn partition_rates_are_ordered_by_core_and_counter() {
    let mut samples = Vec::new();
    for core in [2, 0, 1] {
        for counter in [TickCounter::Idle, TickCounter::User, TickCounter::Nice] {
            samples.push(sample(counter, core, 1000, 10));
            samples.push(sample(counter, core, 2000, 20 + core as i64));
        }
    }
    samples.push(sample(TickCounter::System, 5, 1000, 10));
    let prepared = prepare(&samples, 2000, 60);
    let rates = partition_rates(&prepared);
    let keys: Vec<(i32, TickCounter)> = rates.iter().map(|r| (r.core_id, r.counter)).collect();
    assert_eq!(
        keys,
        vec![
            (0, TickCounter::User),
            (0, TickCounter::Nice),
            (0, TickCounter::Idle),
            (1, TickCounter::User),
            (1, TickCounter::Nice),
            (1, TickCounter::Idle),
            (2, TickCounter::User),
            (2, TickCounter::Nice),
            (2, TickCounter::Idle),
        ]
    );
    assert_eq!(rates[0].rate.millionths, 10_000_000);
    assert_eq!(rates[8].rate.millionths, 12_000_000);
}

#[test]
fn core_row_combines_the_four_counters() {
    let samples = vec![
        sample(TickCounter::User, 0, 1000, 1000),
        sample(TickCounter::System, 0, 1000, 500),
        sample(TickCounter::Nice, 0, 1000, 0),
        sample(TickCounter::Idle, 0, 1000, 8500),
        sample(TickCounter::User, 0, 1100, 1100),
        sample(TickCounter::System, 0, 1100, 550),
        sample(TickCounter::Nice, 0, 1100, 0),
        sample(TickCounter::Idle, 0, 1100, 8850),
    ];
    let row = core_rate(&samples, 0).unwrap();
    assert_eq!(row.core_id, 0);
    assert_eq!(row.core_type, CoreType::Efficiency);
    assert_eq!(row.cluster_id, Some(0));
    assert_eq!(
        row.user_rate,
        Rate { numerator: 100_000, denominator: 100, millionths: 1_000_000_000 }
    );
    assert_eq!(
        row.system_rate,
        Rate { numerator: 50_000, denominator: 100, millionths: 500_000_000 }
    );
    assert_eq!(row.nice_rate, Rate { numerator: 0, denominator: 100, millionths: 0 });
    assert_eq!(
        row.idle_rate,
        Rate { numerator: 350_000, denominator: 100, millionths: 3_500_000_000 }
    );
    assert_eq!(row.total_active_rate.millionths, 1_500_000_000);
    assert_eq!(per_second(&row.total_active_rate), 1500.0);
    assert_eq!(row.total_active_rate.wide, Wide { hi: 0, lo: 1500 << 90 });
    assert_eq!(
        row.utilization_percent,
        Share { part: Wide { hi: 0, lo: 1500 << 90 }, whole: Wide { hi: 0, lo: 5000 << 90 } }
    );
    assert_eq!(as_percent(&row.utilization_percent), 30.0);
    assert_eq!(core_rate(&samples, 1), None);
}

#[test]
fn core_row_counts_a_missing_counter_as_nothing() {
    let samples =
        vec![sample(TickCounter::User, 4, 1000, 0), sample(TickCounter::User, 4, 2000, 10)];
    let rows = per_core_rates(&samples);
    assert_eq!(rows.len(), 1);
    assert_eq!(rows[0].user_rate.millionths, 10_000_000);
    assert_eq!(rows[0].idle_rate, Rate { numerator: 0, denominator: 1, millionths: 0 });
    assert_eq!(as_percent(&rows[0].utilization_percent), 100.0);
}

#[test]
fn core_rows_are_ordered_by_core() {
    let mut samples = Vec::new();
    for core in [11, -1, 4] {
        samples.push(sample(TickCounter::Idle, core, 1000, 10));
        samples.push(sample(TickCounter::Idle, core, 2000, 20));
    }
    samples.push(sample(TickCounter::Idle, 2, 1500, 20));
    let ids: Vec<i32> = per_core_rates(&samples).iter().map(|r| r.core_id).collect();
    assert_eq!(ids, vec![-1, 4, 11]);
}

#[test]
fn aggregate_of_two_efficiency_cores() {
    let rates = vec![
        rate(TickCounter::User, 0, CoreType::Efficiency, 10),
        rate(TickCounter::Idle, 0, CoreType::Efficiency, 30),
        rate(TickCounter::User, 1, CoreType::Efficiency, 20),
        rate(TickCounter::Idle, 1, CoreType::Efficiency, 10),
    ];
    let aggregates = cluster_aggregates(&rates).unwrap();
    assert_eq!(aggregates.len(), 1);
    let efficiency = &aggregates[0];
    assert_eq!(efficiency.core_type, CoreType::Efficiency);
    assert_eq!(efficiency.cluster_id, None);
    assert_eq!(efficiency.core_count, 2);
    assert_eq!(efficiency.total_active_ticks.millionths, 30_000_000);
    assert_eq!(efficiency.total_idle_ticks.millionths, 40_000_000);
    assert_eq!(per_second(&efficiency.total_active_ticks), 30.0);
    assert_eq!(per_second(&efficiency.total_idle_ticks), 40.0);
    assert_eq!(
        efficiency.avg_utilization,
        Share { part: Wide { hi: 0, lo: 30 << 90 }, whole: Wide { hi: 0, lo: 70 << 90 } }
    );
    assert!((as_percent(&efficiency.avg_utilization) - 42.86).abs() < 0.01);
    assert!(close(as_percent(&efficiency.avg_utilization), 100.0 * 30.0 / 70.0));
}

#[test]
fn aggregate_sums_rates_of_different_spans() {
    let mut rates = vec![
        rate(TickCounter::User, 0, CoreType::Efficiency, 0),
        rate(TickCounter::Idle, 0, CoreType::Efficiency, 0),
        rate(TickCounter::Nice, 1, CoreType::Efficiency, 0),
    ];
    rates[0].rate = Rate { numerator: 1000, denominator: 3000, millionths: 333_333 };
    rates[1].rate = Rate { numerator: 1000, denominator: 7000, millionths: 142_857 };
    rates[2].rate = Rate { numerator: 5000, denominator: 13_001, millionths: 384_585 };
    let aggregate = aggregate_class(&rates, CoreType::Efficiency, None).unwrap().unwrap();
    let active = 1.0 / 3.0 + 5000.0 / 13_001.0;
    let idle = 1.0 / 7.0;
    assert!(close(per_second(&aggregate.total_active_ticks), active));
    assert!(close(per_second(&aggregate.total_idle_ticks), idle));
    assert!(close(as_percent(&aggregate.avg_utilization), 100.0 * active / (active + idle)));
    assert_eq!(aggregate.total_active_ticks.millionths, 333_333 + 384_585);
    assert_eq!(aggregate.core_count, 2);
}

#[test]
fn aggregates_are_ordered_by_kind_and_leave_unknown_cores_out() {
    let rates = vec![
        rate(TickCounter::User, 0, CoreType::Performance, 90),
        rate(TickCounter::Idle, 0, CoreType::Performance, 10),
        rate(TickCounter::User, 1, CoreType::Unknown, 50),
        rate(TickCounter::System, 2, CoreType::Efficiency, 1),
        rate(TickCounter::Nice, 2, CoreType::Efficiency, 1),
        rate(TickCounter::Idle, 3, CoreType::Efficiency, 6),
    ];
    let aggregates = cluster_aggregates(&rates).unwrap();
    assert_eq!(aggregates.len(), 2);
    assert_eq!(aggregates[0].core_type, CoreType::Efficiency);
    assert_eq!(aggregates[0].core_count, 1);
    assert_eq!(aggregates[0].total_active_ticks.millionths, 2_000_000);
    assert_eq!(aggregates[0].total_idle_ticks.millionths, 6_000_000);
    assert_eq!(as_percent(&aggregates[0].avg_utilization), 25.0);
    assert_eq!(aggregates[1].core_type, CoreType::Performance);
    assert_eq!(aggregates[1].core_count, 1);
    assert_eq!(as_percent(&aggregates[1].avg_utilization), 90.0);
    assert_eq!(aggregate_class(&rates, CoreType::Unknown, None).unwrap().unwrap().core_count, 1);
    assert_eq!(cluster_aggregates(&vec![]).unwrap(), vec![]);
}

#[test]
fn aggregate_counts_cores_with_a_working_counter() {
    let rates = vec![
        rate(TickCounter::Idle, 0, CoreType::Efficiency, 5),
        rate(TickCounter::Idle, 1, CoreType::Efficiency, 5),
    ];
    let aggregate = aggregate_class(&rates, CoreType::Efficiency, None).unwrap().unwrap();
    assert_eq!(aggregate.core_count, 0);
    assert_eq!(as_percent(&aggregate.avg_utilization), 0.0);
    assert_eq!(aggregate_class(&rates, CoreType::Performance, None), Ok(None));
}

#[test]
fn aggregate_refuses_sums_out_of_range() {
    let many = |count: i32, counter: TickCounter, core_type: CoreType| -> Vec<PartitionRate> {
        (0..count).map(|core| greatest(counter, core, core_type)).collect()
    };
    let efficiency = SumOutOfRange { core_type: CoreType::Efficiency, cluster_id: None };
    let performance = SumOutOfRange { core_type: CoreType::Performance, cluster_id: None };
    let within = many(54, TickCounter::User, CoreType::Efficiency);
    let aggregates = cluster_aggregates(&within).unwrap();
    assert_eq!(aggregates[0].core_count, 54);
    assert_eq!(aggregates[0].total_active_ticks.millionths, 54 * MAX_PAIR_RATE);
    assert_eq!(as_percent(&aggregates[0].avg_utilization), 100.0);
    let beyond = many(55, TickCounter::User, CoreType::Efficiency);
    assert_eq!(cluster_aggregates(&beyond), Err(efficiency));
    let idle = many(55, TickCounter::Idle, CoreType::Efficiency);
    assert_eq!(cluster_aggregates(&idle), Err(efficiency));
    let mut both = many(55, TickCounter::System, CoreType::Performance);
    assert_eq!(cluster_aggregates(&both), Err(performance));
    both.extend(many(55, TickCounter::Nice, CoreType::Efficiency));
    assert_eq!(cluster_aggregates(&both), Err(efficiency));
    let unknown = many(55, TickCounter::User, CoreType::Unknown);
    assert_eq!(cluster_aggregates(&unknown), Ok(vec![]));
}

#[test]
fn clusters_are_summed_on_their_own() {
    let mut rates = vec![
        rate(TickCounter::User, 0, CoreType::Performance, 10),
        rate(TickCounter::Idle, 0, CoreType::Performance, 30),
        rate(TickCounter::User, 1, CoreType::Performance, 20),
        rate(TickCounter::Idle, 1, CoreType::Performance, 20),
        rate(TickCounter::User, 2, CoreType::Performance, 5),
        rate(TickCounter::User, 3, CoreType::Efficiency, 7),
    ];
    rates[0].cluster_id = Some(4);
    rates[1].cluster_id = Some(4);
    rates[2].cluster_id = Some(1);
    rates[3].cluster_id = Some(1);
    rates[4].cluster_id = None;
    rates[5].cluster_id = Some(4);
    let clusters = per_cluster_aggregates(&rates, CoreType::Performance).unwrap();
    assert_eq!(clusters.len(), 2);
    assert_eq!(clusters[0].cluster_id, Some(1));
    assert_eq!(as_percent(&clusters[0].avg_utilization), 50.0);
    assert_eq!(clusters[1].cluster_id, Some(4));
    assert_eq!(as_percent(&clusters[1].avg_utilization), 25.0);
    assert_eq!(clusters[1].core_count, 1);
    let clusters = per_cluster_aggregates(&rates, CoreType::Efficiency).unwrap();
    assert_eq!(clusters.len(), 1);
    assert_eq!(clusters[0].total_active_ticks.millionths, 7_000_000);
    let all = aggregate_class(&rates, CoreType::Performance, None).unwrap().unwrap();
    assert_eq!(all.total_active_ticks.millionths, 35_000_000);
    assert_eq!(all.core_count, 3);
}

#[test]
fn clusters_out_of_range_are_named() {
    let mut rates = Vec::new();
    for core in 0..55 {
        let mut ninth = greatest(TickCounter::User, core, CoreType::Efficiency);
        ninth.cluster_id = Some(9);
        rates.push(ninth);
        let mut third = greatest(TickCounter::User, 100 + core, CoreType::Efficiency);
        third.cluster_id = Some(3);
        rates.push(third);
        let mut none = greatest(TickCounter::User, 200 + core, CoreType::Performance);
        none.cluster_id = None;
        rates.push(none);
    }
    let mut first = rate(TickCounter::User, 300, CoreType::Efficiency, 1);
    first.cluster_id = Some(1);
    rates.push(first);
    assert_eq!(
        per_cluster_aggregates(&rates, CoreType::Efficiency),
        Err(SumOutOfRange { core_type: CoreType::Efficiency, cluster_id: Some(3) })
    );
    assert_eq!(per_cluster_aggregates(&rates, CoreType::Performance), Ok(vec![]));
    assert_eq!(
        aggregate_class(&rates, CoreType::Efficiency, Some(9)),
        Err(SumOutOfRange { core_type: CoreType::Efficiency, cluster_id: Some(9) })
    );
    assert!(aggregate_class(&rates, CoreType::Efficiency, Some(1)).is_ok());
}

#[test]
fn counters_are_known_by_their_names() {
    for counter in [TickCounter::User, TickCounter::System, TickCounter::Nice, TickCounter::Idle] {
        assert_eq!(TickCounter::from_name(counter.name()), Some(counter));
    }
    assert_eq!(TickCounter::User.name(), "cpu_user_ticks");
    assert_eq!(TickCounter::Idle.name(), "cpu_idle_ticks");
    assert_eq!(TickCounter::from_name("cpu_core_count"), None);
    assert!(TickCounter::User.is_active());
    assert!(TickCounter::System.is_active());
    assert!(TickCounter::Nice.is_active());
    assert!(!TickCounter::Idle.is_active());
}

#[test]
fn core_types_are_known_by_their_labels() {
    assert_eq!(CoreType::from_str("efficiency"), CoreType::Efficiency);
    assert_eq!(CoreType::from_str("performance"), CoreType::Performance);
    assert_eq!(CoreType::from_str("unknown"), CoreType::Unknown);
    assert_eq!(CoreType::from_str("turbo"), CoreType::Unknown);
    assert_eq!(CoreType::Efficiency.as_str(), "efficiency");
    assert_eq!(CoreType::Performance.as_str(), "performance");
    assert_eq!(CoreType::Unknown.as_str(), "unknown");
}

#[test]
fn tick_sample_reads_the_tags() {
    let metric = tick_metric("cpu_idle_ticks", 8500, 1000, &tags("3", "performance", "1"));
    assert_eq!(
        tick_sample(TickCounter::Idle, &metric),
        Ok(TickSample {
            counter: TickCounter::Idle,
            core_id: 3,
            core_type: CoreType::Performance,
            cluster_id: Some(1),
            timestamp: 1000,
            ticks: 8500,
        })
    );
    assert_eq!(tagged_i32(&metric.metadata, "core_id"), Some(3));
    assert_eq!(tagged_i32(&metric.metadata, "core_type"), None);
}

#[test]
fn tick_sample_without_classification_is_of_unknown_kind() {
    let metadata = vec![(String::from("core_id"), String::from("3"))];
    let metric = tick_metric("cpu_idle_ticks", 1, 1, &metadata);
    let sample = tick_sample(TickCounter::Idle, &metric).unwrap();
    assert_eq!(sample.core_type, CoreType::Unknown);
    assert_eq!(sample.cluster_id, None);
    let metric = tick_metric("cpu_idle_ticks", 1, 1, &tags("3", "big", "one"));
    let sample = tick_sample(TickCounter::Idle, &metric).unwrap();
    assert_eq!(sample.core_type, CoreType::Unknown);
    assert_eq!(sample.cluster_id, None);
}

#[test]
fn tick_sample_must_be_an_integer_with_a_core() {
    let metadata = tags("0", "efficiency", "0");
    let text = Metric::at(
        String::from("cpu_idle_ticks"),
        MetricValue::String(String::from("12")),
        1,
        metadata.clone(),
    );
    assert_eq!(tick_sample(TickCounter::Idle, &text), Err(ValidationError::NotAnInteger));
    let float = Metric::at(
        String::from("cpu_idle_ticks"),
        MetricValue::Float(1.0f64.to_bits()),
        1,
        metadata.clone(),
    );
    assert_eq!(tick_sample(TickCounter::Idle, &float), Err(ValidationError::NotAnInteger));
    let flag =
        Metric::at(String::from("cpu_idle_ticks"), MetricValue::Boolean(true), 1, metadata.clone());
    assert_eq!(tick_sample(TickCounter::Idle, &flag), Err(ValidationError::NotAnInteger));
    let no_core = tick_metric("cpu_idle_ticks", 1, 1, &vec![]);
    assert_eq!(tick_sample(TickCounter::Idle, &no_core), Err(ValidationError::MissingCoreId));
    let bad_core = tick_metric("cpu_idle_ticks", 1, 1, &tags("zero", "efficiency", "0"));
    assert_eq!(tick_sample(TickCounter::Idle, &bad_core), Err(ValidationError::MissingCoreId));
    let wide_core = tick_metric("cpu_idle_ticks", 1, 1, &tags("2147483648", "efficiency", "0"));
    assert_eq!(tick_sample(TickCounter::Idle, &wide_core), Err(ValidationError::MissingCoreId));
}

#[test]
fn tick_samples_pass_over_other_samples() {
    let metadata = tags("0", "efficiency", "0");
    let metrics = vec![
        tick_metric("cpu_user_ticks", 1, 10, &metadata),
        tick_metric("gpu_utilization", 2, 10, &vec![]),
        tick_metric("cpu_idle_ticks", 3, 10, &metadata),
    ];
    let samples = tick_samples(&metrics, 10, 60).unwrap();
    assert_eq!(samples.len(), 2);
    assert_eq!(samples[0].counter, TickCounter::User);
    assert_eq!(samples[1].counter, TickCounter::Idle);
    assert_eq!(samples[1].ticks, 3);
}

#[test]
fn tick_samples_refuse_the_first_malformed_one() {
    let metadata = tags("0", "efficiency", "0");
    let metrics = vec![
        tick_metric("cpu_user_ticks", 1, 10, &metadata),
        tick_metric("cpu_idle_ticks", 3, 10, &vec![]),
        Metric::at(String::from("cpu_nice_ticks"), MetricValue::Boolean(false), 10, metadata),
    ];
    assert_eq!(
        tick_samples(&metrics, 10, 60),
        Err(RefusedSample { position: 1, reason: ValidationError::MissingCoreId })
    );
}

#[test]
fn tick_samples_outside_the_window_are_not_looked_at() {
    let metadata = tags("0", "efficiency", "0");
    let metrics = vec![
        tick_metric("cpu_idle_ticks", 1, 1_000, &vec![]),
        tick_metric("cpu_user_ticks", 2, 40_000, &metadata),
        tick_metric("cpu_user_ticks", 3, 40_001, &metadata),
        tick_metric("cpu_user_ticks", 4, 100_000, &metadata),
        Metric::at(String::from("cpu_nice_ticks"), MetricValue::Boolean(true), 100_001, vec![]),
    ];
    let samples = tick_samples(&metrics, 100_000, 60).unwrap();
    let ticks: Vec<i64> = samples.iter().map(|s| s.ticks).collect();
    assert_eq!(ticks, vec![3, 4]);
    assert_eq!(
        tick_samples(&metrics, 100_001, 60),
        Err(RefusedSample { position: 4, reason: ValidationError::NotAnInteger })
    );
    assert_eq!(
        tick_samples(&metrics, 60_000, 60),
        Err(RefusedSample { position: 0, reason: ValidationError::MissingCoreId })
    );
    assert_eq!(tick_samples(&metrics, 100_000, 0), Ok(vec![]));
    let aggregation = AppleSiliconCPU::new();
    let result = aggregation.execute(&metrics, 100_000, &vec![]).unwrap();
    assert_eq!(result.data.per_core_rates.len(), 1);
    assert_eq!(result.data.per_core_rates[0].user_rate.numerator, 1000);
    assert_eq!(result.data.per_core_rates[0].user_rate.denominator, 59_999);
    let refused = aggregation.execute(&metrics, 60_500, &vec![]);
    assert_eq!(
        refused.err(),
        Some(AggregationFailure::MalformedSample {
            position: 0,
            reason: ValidationError::MissingCoreId
        })
    );
}

#[test]
fn test_cpu_rate_calculation() {
    let aggregation = AppleSiliconCPU::new();
    let metadata = tags("0", "efficiency", "0");
    let first = 1_700_000_000_000;
    let second = first + 100;
    let metrics = vec![
        tick_metric("cpu_user_ticks", 1000, first, &metadata),
        tick_metric("cpu_system_ticks", 500, first, &metadata),
        tick_metric("cpu_nice_ticks", 0, first, &metadata),
        tick_metric("cpu_idle_ticks", 8500, first, &metadata),
        tick_metric("cpu_user_ticks", 1100, second, &metadata),
        tick_metric("cpu_system_ticks", 550, second, &metadata),
        tick_metric("cpu_nice_ticks", 0, second, &metadata),
        tick_metric("cpu_idle_ticks", 8850, second, &metadata),
    ];
    let params = Vec::new();
    let result = aggregation.execute(&metrics, second, &params).unwrap();

    assert_eq!(result.name, "apple_silicon_cpu");
    let core_rates = &result.data.per_core_rates;
    assert!(!core_rates.is_empty());
    assert!(!result.data.cluster_aggregates.is_empty());

    let utilization = as_percent(&core_rates[0].utilization_percent);
    assert!(utilization > 25.0 && utilization < 35.0, "Actual utilization: {}", utilization);
    assert_eq!(utilization, 30.0);
    assert_eq!(result.data.window_seconds, DEFAULT_WINDOW_SECONDS);
    assert_eq!(result.data.cluster_aggregates[0].core_count, 1);
    assert_eq!(as_percent(&result.data.cluster_aggregates[0].avg_utilization), 30.0);
    assert_eq!(result.data.partition_rates.len(), 4);
    assert_eq!(result.data.efficiency_clusters.len(), 1);
    assert_eq!(result.data.efficiency_clusters[0].cluster_id, Some(0));
    assert!(result.data.performance_clusters.is_empty());
}

#[test]
fn aggregation_reads_its_window_from_the_parameters() {
    let aggregation = AppleSiliconCPU::new();
    let metadata = tags("0", "efficiency", "0");
    let metrics = vec![
        tick_metric("cpu_user_ticks", 0, 1_000, &metadata),
        tick_metric("cpu_user_ticks", 10, 2_000, &metadata),
        tick_metric("cpu_user_ticks", 40, 3_000, &metadata),
    ];
    let window = |seconds: &str| vec![(String::from("window_seconds"), String::from(seconds))];
    let result = aggregation.execute(&metrics, 3_000, &window("5")).unwrap();
    assert_eq!(result.data.window_seconds, 5);
    assert_eq!(result.data.per_core_rates[0].user_rate.millionths, 30_000_000);
    let result = aggregation.execute(&metrics, 3_000, &window("1")).unwrap();
    assert!(result.data.per_core_rates.is_empty());
    assert!(result.data.cluster_aggregates.is_empty());
    let result = aggregation.execute(&metrics, 2_500, &window("5")).unwrap();
    assert_eq!(result.data.per_core_rates[0].user_rate.millionths, 10_000_000);
    let result = aggregation.execute(&metrics, 3_000, &window("a minute")).unwrap();
    assert_eq!(result.data.window_seconds, 60);
    assert_eq!(AppleSiliconCPU::window_seconds(&window("120")), 120);
    assert_eq!(AppleSiliconCPU::window_seconds(&vec![]), 60);
}

#[test]
fn aggregation_refuses_a_window_that_is_not_positive() {
    let aggregation = AppleSiliconCPU::new();
    let window = |seconds: &str| vec![(String::from("window_seconds"), String::from(seconds))];
    for seconds in [0, -1, i64::MIN] {
        let result = aggregation.execute(&vec![], 0, &window(&seconds.to_string()));
        assert_eq!(
            result.err(),
            Some(AggregationFailure::WindowNotPositive { window_seconds: seconds })
        );
    }
}

#[test]
fn aggregation_refuses_a_malformed_tick_sample() {
    let aggregation = AppleSiliconCPU::new();
    let metadata = tags("0", "efficiency", "0");
    let metrics = vec![
        tick_metric("gpu_temperature", 0, 1_000, &vec![]),
        tick_metric("cpu_user_ticks", 0, 1_000, &metadata),
        tick_metric("cpu_user_ticks", 0, 1_000, &vec![]),
        Metric::at(String::from("cpu_idle_ticks"), MetricValue::Boolean(true), 1_000, metadata),
    ];
    let result = aggregation.execute(&metrics, 3_000, &vec![]);
    assert_eq!(
        result.err(),
        Some(AggregationFailure::MalformedSample {
            position: 2,
            reason: ValidationError::MissingCoreId
        })
    );
}

#[test]
fn aggregation_names_the_kind_whose_rates_are_out_of_range() {
    let aggregation = AppleSiliconCPU::new();
    let mut metrics = Vec::new();
    for core in 0..60 {
        let metadata = tags(&core.to_string(), "performance", "0");
        metrics.push(tick_metric("cpu_user_ticks", i64::MIN, 0, &metadata));
        metrics.push(tick_metric("cpu_user_ticks", i64::MAX, 1, &metadata));
    }
    let result = aggregation.execute(&metrics, 1, &vec![]);
    assert_eq!(
        result.err(),
        Some(AggregationFailure::SumOutOfRange {
            core_type: CoreType::Performance,
            cluster_id: None
        })
    );
    metrics.truncate(100);
    let result = aggregation.execute(&metrics, 1, &vec![]).unwrap();
    assert_eq!(result.data.cluster_aggregates[0].core_count, 50);
    assert_eq!(as_percent(&result.data.cluster_aggregates[0].avg_utilization), 100.0);
    assert_eq!(result.data.performance_clusters.len(), 1);
}

#[test]
fn registry_holds_the_built_in_aggregation() {
    let registry = AggregationRegistry::new();
    assert_eq!(
        registry.list(),
        vec![(
            "apple_silicon_cpu",
            "Calculate CPU utilization rates for Apple Silicon processors with per-core and cluster aggregations"
        )]
    );
    assert_eq!(registry.find("apple_silicon_cpu"), Some(0));
    assert_eq!(registry.find("apple_silicon_gpu"), None);
    assert_eq!(AggregationRegistry::default().list().len(), 1);
}

#[test]
fn registry_replaces_an_aggregation_of_the_same_name() {
    let mut registry = AggregationRegistry::new();
    registry.register(AppleSiliconCPU::new());
    assert_eq!(registry.list().len(), 1);
}

#[test]
fn registry_runs_an_aggregation_by_name() {
    let registry = AggregationRegistry::new();
    let metadata = tags("0", "performance", "2");
    let metrics = vec![
        tick_metric("cpu_user_ticks", 0, 1_000, &metadata),
        tick_metric("cpu_user_ticks", 10, 2_000, &metadata),
    ];
    let result = registry.execute("apple_silicon_cpu", &metrics, 2_000, &vec![]).unwrap();
    assert_eq!(result.name, "apple_silicon_cpu");
    assert_eq!(result.data.per_core_rates.len(), 1);
    assert_eq!(result.data.per_core_rates[0].core_type, CoreType::Performance);
    assert_eq!(result.data.per_core_rates[0].cluster_id, Some(2));
    let missing = registry.execute("nothing", &metrics, 2_000, &vec![]);
    assert_eq!(missing.err(), Some(AggregationError::UnknownAggregation));
    let window = vec![(String::from("window_seconds"), String::from("0"))];
    let refused = registry.execute("apple_silicon_cpu", &metrics, 2_000, &window);
    assert_eq!(
        refused.err(),
        Some(AggregationError::Invalid(AggregationFailure::WindowNotPositive {
            window_seconds: 0
        }))
    );
}
