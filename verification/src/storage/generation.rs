//! From the totals of successive rounds to the charts of a round.
//!
//! Each round carries cumulative tick totals of the performance cores and of
//! the efficiency cores, and a utilization of the graphics processor. Two
//! neighbouring rounds give one utilization value; a series of values gives a
//! bar chart and a braille chart. Rounds, values and glyphs all run from the
//! most recent to the oldest.

use vstd::prelude::*;
use vstd::slice::slice_subrange;
use vstd::string::*;
use crate::storage::encoding::{bar_chart_text, braille_chart_text};
use crate::storage::sqlite::SqliteStorage;
use crate::storage::{chart_models, Chart, ChartModel, ChartType};
use crate::text::same_text;
use crate::utilization::{utilization, utilization_percent};

verus! {

/// What one round says about utilization.
#[derive(Debug, Clone, PartialEq, Eq)]
pub struct UtilizationData {
    pub round_id: String,
    /// Milliseconds since the epoch.
    pub timestamp: i64,
    pub perf_total: i64,
    pub perf_idle: i64,
    pub eff_total: i64,
    pub eff_idle: i64,
    /// Fixed-point percent.
    pub gpu_util: i64,
}

/// What one round says about utilization, with the round's identifier as a
/// sequence of characters.
pub struct UtilizationModel {
    pub round_id: Seq<char>,
    pub timestamp: i64,
    pub perf_total: i64,
    pub perf_idle: i64,
    pub eff_total: i64,
    pub eff_idle: i64,
    pub gpu_util: i64,
}

impl View for UtilizationData {
    type V = UtilizationModel;

    open spec fn view(&self) -> UtilizationModel {
        UtilizationModel {
            round_id: self.round_id@,
            timestamp: self.timestamp,
            perf_total: self.perf_total,
            perf_idle: self.perf_idle,
            eff_total: self.eff_total,
            eff_idle: self.eff_idle,
            gpu_util: self.gpu_util,
        }
    }
}

/// The models of a list of rounds.
pub open spec fn utilization_models(data: Seq<UtilizationData>) -> Seq<UtilizationModel> {
    Seq::new(data.len(), |i: int| data[i]@)
}

/// The three series that are charted, in the order in which their charts are
/// stored.
pub open spec fn charted_metrics() -> Seq<Seq<char>> {
    seq![
        "performance_cores_utilization"@,
        "efficiency_cores_utilization"@,
        "gpu_utilization"@,
    ]
}

/// The utilization between two totals: the share of the ticks that were not
/// idle among those that passed from `earlier` to `later`, in fixed-point
/// percent; 0 where no ticks passed.
pub open spec fn utilization_between(
    later_total: i64,
    later_idle: i64,
    earlier_total: i64,
    earlier_idle: i64,
) -> i64 {
    let passed = later_total - earlier_total;
    let idle = later_idle - earlier_idle;
    utilization(passed - idle, idle) as i64
}

/// The value that a round and the round before it give a series, in
/// fixed-point percent. A series of another name is constantly 0.
pub open spec fn value_between(
    later: UtilizationModel,
    earlier: UtilizationModel,
    metric: Seq<char>,
) -> i64 {
    if metric == "performance_cores_utilization"@ {
        utilization_between(
            later.perf_total,
            later.perf_idle,
            earlier.perf_total,
            earlier.perf_idle,
        )
    } else if metric == "efficiency_cores_utilization"@ {
        utilization_between(later.eff_total, later.eff_idle, earlier.eff_total, earlier.eff_idle)
    } else if metric == "gpu_utilization"@ {
        later.gpu_util
    } else {
        0
    }
}

/// The values of a series over rounds given most recent first: one value per
/// pair of neighbours, so none for fewer than two rounds.
pub open spec fn metric_values(data: Seq<UtilizationModel>, metric: Seq<char>) -> Seq<i64> {
    if data.len() < 2 {
        Seq::empty()
    } else {
        Seq::new((data.len() - 1) as nat, |i: int| value_between(data[i], data[i + 1], metric))
    }
}

/// How many glyphs a braille chart of `data_points` values has.
pub open spec fn braille_points(data_points: int) -> int {
    (data_points + 1) / 2
}

/// The charts of one series.
///
/// With at least `data_points` values, and `data_points` above 0, the first
/// `data_points` of them give a bar chart. With enough values to fill every
/// braille glyph with two, those give a braille chart as well.
pub open spec fn charts_of_metric(
    round_id: Seq<char>,
    metric: Seq<char>,
    values: Seq<i64>,
    data_points: usize,
    timestamp: i64,
) -> Seq<ChartModel> {
    if data_points == 0 || values.len() < data_points {
        Seq::empty()
    } else {
        let bar = ChartModel {
            id: None,
            collection_round_id: round_id,
            metric_name: metric,
            chart_type: ChartType::Bar,
            chart_data: bar_chart_text(values.take(data_points as int)),
            data_points,
            timestamp,
        };
        let glyphs = braille_points(data_points as int);
        if values.len() < 2 * glyphs {
            seq![bar]
        } else {
            seq![
                bar,
                ChartModel {
                    id: None,
                    collection_round_id: round_id,
                    metric_name: metric,
                    chart_type: ChartType::Braille,
                    chart_data: braille_chart_text(values.take(2 * glyphs)),
                    data_points: glyphs as usize,
                    timestamp,
                },
            ]
        }
    }
}

/// The charts of a round: those of the three series, or none where fewer
/// than two rounds are at hand.
pub open spec fn generated_charts(
    round_id: Seq<char>,
    data_points: usize,
    data: Seq<UtilizationModel>,
    timestamp: i64,
) -> Seq<ChartModel> {
    if data.len() < 2 {
        Seq::empty()
    } else {
        charts_of_metric(
            round_id,
            charted_metrics()[0],
            metric_values(data, charted_metrics()[0]),
            data_points,
            timestamp,
        ) + charts_of_metric(
            round_id,
            charted_metrics()[1],
            metric_values(data, charted_metrics()[1]),
            data_points,
            timestamp,
        ) + charts_of_metric(
            round_id,
            charted_metrics()[2],
            metric_values(data, charted_metrics()[2]),
            data_points,
            timestamp,
        )
    }
}

/// The utilization between two totals.
pub fn utilization_from_totals(
    later_total: i64,
    later_idle: i64,
    earlier_total: i64,
    earlier_idle: i64,
) -> (percent: i64)
    ensures
        percent == utilization_between(later_total, later_idle, earlier_total, earlier_idle),
{
    let passed: i128 = later_total as i128 - earlier_total as i128;
    let idle: i128 = later_idle as i128 - earlier_idle as i128;
    match utilization_percent(passed - idle, idle) {
        Ok(percent) => percent.millionths,
        Err(_) => 0,
    }
}

impl SqliteStorage {
    /// The values of one series over rounds given most recent first.
    pub fn extract_metric_values(&self, data: &Vec<UtilizationData>, metric: &str) -> (values:
        Vec<i64>)
        ensures
            values@ == metric_values(utilization_models(data@), metric@),
    {
        let mut values: Vec<i64> = Vec::new();
        if data.len() < 2 {
            return values;
        }
        let performance = same_text(metric, "performance_cores_utilization");
        let efficiency = same_text(metric, "efficiency_cores_utilization");
        let graphics = same_text(metric, "gpu_utilization");
        let mut i: usize = 1;
        while i < data.len()
            invariant
                1 <= i <= data@.len(),
                performance == (metric@ == "performance_cores_utilization"@),
                efficiency == (metric@ == "efficiency_cores_utilization"@),
                graphics == (metric@ == "gpu_utilization"@),
                values@ =~= metric_values(utilization_models(data@), metric@).take(i - 1),
            decreases data@.len() - i,
        {
            let later = &data[i - 1];
            let earlier = &data[i];
            let value: i64 = if performance {
                utilization_from_totals(
                    later.perf_total,
                    later.perf_idle,
                    earlier.perf_total,
                    earlier.perf_idle,
                )
            } else if efficiency {
                utilization_from_totals(
                    later.eff_total,
                    later.eff_idle,
                    earlier.eff_total,
                    earlier.eff_idle,
                )
            } else if graphics {
                later.gpu_util
            } else {
                0
            };
            values.push(value);
            i = i + 1;
        }
        assert(metric_values(utilization_models(data@), metric@).take(data@.len() - 1)
            =~= metric_values(utilization_models(data@), metric@));
        values
    }

    /// Appends the charts of one series to the store.
    pub fn store_charts_of_metric(
        &mut self,
        collection_round_id: &str,
        metric: &str,
        values: &Vec<i64>,
        data_points: usize,
        timestamp: i64,
    )
        ensures
            chart_models(final(self).charts@) == chart_models(old(self).charts@) + charts_of_metric(
                collection_round_id@,
                metric@,
                values@,
                data_points,
                timestamp,
            ),
            final(self).db_path == old(self).db_path,
            final(self).rounds == old(self).rounds,
            final(self).metrics == old(self).metrics,
    {
        let ghost before = chart_models(self.charts@);
        if data_points == 0 || values.len() < data_points {
            assert(chart_models(self.charts@) =~= before + Seq::<ChartModel>::empty());
            return ;
        }
        let head = slice_subrange(values.as_slice(), 0, data_points);
        assert(head@ =~= values@.take(data_points as int));
        let bar = match self.generate_bar_chart(head, metric) {
            Ok(bar) => bar,
            Err(_) => String::new(),
        };
        let bar_chart = Chart {
            id: None,
            collection_round_id: String::from_str(collection_round_id),
            metric_name: String::from_str(metric),
            chart_type: ChartType::Bar,
            chart_data: bar,
            data_points,
            timestamp,
        };
        let ghost bar_model = bar_chart@;
        let ghost stored = self.charts@;
        self.charts.push(bar_chart);
        assert(chart_models(self.charts@) =~= before.push(bar_model));
        let glyphs: usize = data_points / 2 + data_points % 2;
        assert(glyphs == braille_points(data_points as int));
        if values.len() / 2 < glyphs {
            assert(values@.len() < 2 * glyphs);
            assert(chart_models(self.charts@) =~= before + seq![bar_model]);
            return ;
        }
        let paired = slice_subrange(values.as_slice(), 0, 2 * glyphs);
        assert(paired@ =~= values@.take(2 * glyphs));
        let braille = match self.generate_braille_chart(paired, metric) {
            Ok(braille) => braille,
            Err(_) => String::new(),
        };
        let braille_chart = Chart {
            id: None,
            collection_round_id: String::from_str(collection_round_id),
            metric_name: String::from_str(metric),
            chart_type: ChartType::Braille,
            chart_data: braille,
            data_points: glyphs,
            timestamp,
        };
        let ghost braille_model = braille_chart@;
        self.charts.push(braille_chart);
        assert(chart_models(self.charts@) =~= before + seq![bar_model, braille_model]);
    }

    /// Generates the charts of a round from the rounds at hand, most recent
    /// first, and stores them.
    ///
    /// With fewer than two rounds there is nothing to chart, and the store
    /// stays as it is.
    pub fn generate_and_store_charts_from(
        &mut self,
        collection_round_id: &str,
        data_points: usize,
        utilization_data: &Vec<UtilizationData>,
        timestamp: i64,
    )
        ensures
            chart_models(final(self).charts@) == chart_models(old(self).charts@) + generated_charts(
                collection_round_id@,
                data_points,
                utilization_models(utilization_data@),
                timestamp,
            ),
            utilization_data@.len() < 2 ==> final(self).charts@ == old(self).charts@,
            final(self).db_path == old(self).db_path,
            final(self).rounds == old(self).rounds,
            final(self).metrics == old(self).metrics,
    {
        let ghost before = chart_models(self.charts@);
        if utilization_data.len() < 2 {
            assert(chart_models(self.charts@) =~= before + Seq::<ChartModel>::empty());
            return ;
        }
        let performance = self.extract_metric_values(
            utilization_data,
            "performance_cores_utilization",
        );
        self.store_charts_of_metric(
            collection_round_id,
            "performance_cores_utilization",
            &performance,
            data_points,
            timestamp,
        );
        let efficiency = self.extract_metric_values(
            utilization_data,
            "efficiency_cores_utilization",
        );
        self.store_charts_of_metric(
            collection_round_id,
            "efficiency_cores_utilization",
            &efficiency,
            data_points,
            timestamp,
        );
        let graphics = self.extract_metric_values(utilization_data, "gpu_utilization");
        self.store_charts_of_metric(
            collection_round_id,
            "gpu_utilization",
            &graphics,
            data_points,
            timestamp,
        );
        assert(chart_models(self.charts@) =~= before + generated_charts(
            collection_round_id@,
            data_points,
            utilization_models(utilization_data@),
            timestamp,
        ));
    }
}

} // verus!
