//! The totals of the most recent rounds, read from the stored samples.
//!
//! Five kinds of sample feed the charts: the total and the idle ticks of the
//! performance cores, the same two of the efficiency cores, and the
//! utilization of the graphics processor. The rounds are visited most recent
//! first; each gives up its samples of these kinds in the order in which
//! they were stored, until five samples for each round that was asked for
//! have been read. A sample among them whose value cannot be read as a number
//! refuses the whole, and is named.

use vstd::prelude::*;
use crate::clock::now_millis;
use crate::collectors::types::MetricValue;
use crate::decimal::{decimal_value_within, parse_i64};
use crate::fixed::UNIT;
use crate::ieee754::{fixed_from_bits, fixed_of};
use crate::order::{
    latest_first, lemma_stable_order_sorts, precedes, stable_order, stable_order_of,
};
use crate::storage::generation::{
    generated_charts, utilization_models, UtilizationData, UtilizationModel,
};
use crate::storage::sqlite::{SqliteStorage, StoredMetric};
use crate::storage::{chart_models, CollectionRound};
use crate::text::same_text;
use crate::validation::ValidationError;

verus! {

/// The totals that a stored sample can set.
#[derive(Debug, Clone, Copy, PartialEq, Eq, Structural)]
pub enum TotalsField {
    PerformanceTotal,
    PerformanceIdle,
    EfficiencyTotal,
    EfficiencyIdle,
    GraphicsUtilization,
}

/// The total that samples of a name set, if any.
pub open spec fn field_named(name: Seq<char>) -> Option<TotalsField> {
    if name == "cpu.performance.total_ticks"@ {
        Some(TotalsField::PerformanceTotal)
    } else if name == "cpu.performance.idle_ticks"@ {
        Some(TotalsField::PerformanceIdle)
    } else if name == "cpu.efficiency.total_ticks"@ {
        Some(TotalsField::EfficiencyTotal)
    } else if name == "cpu.efficiency.idle_ticks"@ {
        Some(TotalsField::EfficiencyIdle)
    } else if name == "gpu.utilization"@ {
        Some(TotalsField::GraphicsUtilization)
    } else {
        None
    }
}

/// A stored value that cannot be read: the round and the name of the sample
/// that holds it, and what is wrong with it.
#[derive(Debug, Clone, PartialEq, Eq)]
pub struct RefusedValue {
    pub round_id: String,
    pub name: String,
    pub reason: ValidationError,
}

/// A refused value with every text as a sequence of characters.
pub struct RefusedValueModel {
    pub round_id: Seq<char>,
    pub name: Seq<char>,
    pub reason: ValidationError,
}

impl View for RefusedValue {
    type V = RefusedValueModel;

    open spec fn view(&self) -> RefusedValueModel {
        RefusedValueModel { round_id: self.round_id@, name: self.name@, reason: self.reason }
    }
}

/// A value read as a whole number: an integer as it is, text as the decimal
/// integer that it writes. Any other value is refused as no integer.
pub open spec fn whole_reading(value: MetricValue) -> Result<i64, ValidationError> {
    match value {
        MetricValue::Integer(v) => Ok(v),
        MetricValue::String(text) => match decimal_value_within(
            text@,
            i64::MIN as int,
            i64::MAX as int,
        ) {
            Some(v) => Ok(v as i64),
            None => Err(ValidationError::NotAnInteger),
        },
        _ => Err(ValidationError::NotAnInteger),
    }
}

/// A value read as a fixed-point number: a double to the nearest millionth,
/// a whole number in millionths. A double without a fixed-point form is
/// refused as such, a whole number whose millionths do not fit in 64 bits as
/// out of range, and any other value as no integer.
pub open spec fn fixed_reading(value: MetricValue) -> Result<i64, ValidationError> {
    match value {
        MetricValue::Float(bits) => fixed_of(bits),
        _ => match whole_reading(value) {
            Ok(v) => if i64::MIN <= v * UNIT <= i64::MAX {
                Ok((v * UNIT) as i64)
            } else {
                Err(ValidationError::OutOfRange)
            },
            Err(e) => Err(e),
        },
    }
}

/// Whether a stored sample feeds the totals of the round with the given
/// identifier.
pub open spec fn feeds(row: StoredMetric, id: Seq<char>) -> bool {
    row.collection_round_id@ == id && field_named(row.metric.name@) is Some
}

/// The stored samples that feed the totals of a round, in the order in which
/// they were stored.
pub open spec fn feeding_rows(metrics: Seq<StoredMetric>, id: Seq<char>) -> Seq<StoredMetric>
    decreases metrics.len(),
{
    if metrics.len() == 0 {
        Seq::empty()
    } else {
        let earlier = feeding_rows(metrics.drop_last(), id);
        if feeds(metrics.last(), id) {
            earlier.push(metrics.last())
        } else {
            earlier
        }
    }
}

/// The totals of a round before any sample is read: all 0.
pub open spec fn blank_totals(round: CollectionRound) -> UtilizationModel {
    UtilizationModel {
        round_id: round.id@,
        timestamp: round.timestamp,
        perf_total: 0,
        perf_idle: 0,
        eff_total: 0,
        eff_idle: 0,
        gpu_util: 0,
    }
}

/// The totals after one more sample is read: the sample sets the total that
/// its name stands for. A sample whose value cannot be read is refused.
pub open spec fn with_row(totals: UtilizationModel, row: StoredMetric) -> Result<
    UtilizationModel,
    ValidationError,
> {
    match field_named(row.metric.name@) {
        Some(TotalsField::PerformanceTotal) => match whole_reading(row.metric.value) {
            Ok(v) => Ok(UtilizationModel { perf_total: v, ..totals }),
            Err(e) => Err(e),
        },
        Some(TotalsField::PerformanceIdle) => match whole_reading(row.metric.value) {
            Ok(v) => Ok(UtilizationModel { perf_idle: v, ..totals }),
            Err(e) => Err(e),
        },
        Some(TotalsField::EfficiencyTotal) => match whole_reading(row.metric.value) {
            Ok(v) => Ok(UtilizationModel { eff_total: v, ..totals }),
            Err(e) => Err(e),
        },
        Some(TotalsField::EfficiencyIdle) => match whole_reading(row.metric.value) {
            Ok(v) => Ok(UtilizationModel { eff_idle: v, ..totals }),
            Err(e) => Err(e),
        },
        Some(TotalsField::GraphicsUtilization) => match fixed_reading(row.metric.value) {
            Ok(v) => Ok(UtilizationModel { gpu_util: v, ..totals }),
            Err(e) => Err(e),
        },
        None => Ok(totals),
    }
}

/// What is reported of a sample whose value is refused.
pub open spec fn refusal_of(row: StoredMetric, reason: ValidationError) -> RefusedValueModel {
    RefusedValueModel { round_id: row.collection_round_id@, name: row.metric.name@, reason }
}

/// The totals after the samples are read in order; a later sample of a name
/// overrides an earlier one. The first sample whose value cannot be read
/// refuses the whole.
pub open spec fn with_rows(totals: UtilizationModel, rows: Seq<StoredMetric>) -> Result<
    UtilizationModel,
    RefusedValueModel,
>
    decreases rows.len(),
{
    if rows.len() == 0 {
        Ok(totals)
    } else {
        match with_rows(totals, rows.drop_last()) {
            Err(refused) => Err(refused),
            Ok(earlier) => match with_row(earlier, rows.last()) {
                Ok(later) => Ok(later),
                Err(reason) => Err(refusal_of(rows.last(), reason)),
            },
        }
    }
}

/// The first `budget` of the rows, or all of them if there are no more.
pub open spec fn within_budget(rows: Seq<StoredMetric>, budget: int) -> Seq<StoredMetric> {
    if rows.len() <= budget {
        rows
    } else {
        rows.take(budget)
    }
}

/// The totals in `head`, followed by those in `rest` if there are any.
pub open spec fn followed_by(
    head: Seq<UtilizationModel>,
    rest: Result<Seq<UtilizationModel>, RefusedValueModel>,
) -> Result<Seq<UtilizationModel>, RefusedValueModel> {
    match rest {
        Ok(tail) => Ok(head + tail),
        Err(refused) => Err(refused),
    }
}

/// The totals of the rounds from position `from` of `order` on, as long as
/// the budget of samples lasts. A round none of whose samples is read gives
/// no totals. The first value that cannot be read, in the order of reading,
/// refuses the whole.
pub open spec fn recent_from(
    rounds: Seq<CollectionRound>,
    order: Seq<usize>,
    from: int,
    metrics: Seq<StoredMetric>,
    budget: int,
) -> Result<Seq<UtilizationModel>, RefusedValueModel>
    decreases order.len() - from,
{
    if from < 0 || from >= order.len() || budget <= 0 {
        Ok(Seq::empty())
    } else {
        let round = rounds[order[from] as int];
        let read = within_budget(feeding_rows(metrics, round.id@), budget);
        match with_rows(blank_totals(round), read) {
            Err(refused) => Err(refused),
            Ok(totals) => {
                let head = if read.len() > 0 {
                    seq![totals]
                } else {
                    Seq::empty()
                };
                followed_by(
                    head,
                    recent_from(rounds, order, from + 1, metrics, budget - read.len()),
                )
            },
        }
    }
}

/// The times of the rounds.
pub open spec fn round_times(rounds: Seq<CollectionRound>) -> Seq<i64> {
    Seq::new(rounds.len(), |i: int| rounds[i].timestamp)
}

/// The totals of the most recent rounds, most recent first, from at most
/// five samples for each of the `wanted` rounds.
pub open spec fn recent_utilization(
    rounds: Seq<CollectionRound>,
    metrics: Seq<StoredMetric>,
    wanted: usize,
) -> Result<Seq<UtilizationModel>, RefusedValueModel> {
    recent_from(rounds, latest_first(round_times(rounds)), 0, metrics, wanted * 5)
}

/// How many rounds the charts of `data_points` values need: one more, as
/// far as that can be counted.
pub open spec fn rounds_needed(data_points: usize) -> usize {
    if data_points == usize::MAX {
        data_points
    } else {
        (data_points + 1) as usize
    }
}

/// The feeding rows among the first samples are the first of all feeding
/// rows.
proof fn lemma_feeding_rows_prefix(metrics: Seq<StoredMetric>, id: Seq<char>, k: int)
    requires
        0 <= k <= metrics.len(),
    ensures
        feeding_rows(metrics.take(k), id).len() <= feeding_rows(metrics, id).len(),
        feeding_rows(metrics.take(k), id) == feeding_rows(metrics, id).take(
            feeding_rows(metrics.take(k), id).len() as int,
        ),
    decreases metrics.len(),
{
    if k == metrics.len() {
        assert(metrics.take(k) =~= metrics);
        assert(feeding_rows(metrics, id).take(feeding_rows(metrics, id).len() as int)
            =~= feeding_rows(metrics, id));
    } else {
        assert(metrics.drop_last().take(k) =~= metrics.take(k));
        lemma_feeding_rows_prefix(metrics.drop_last(), id, k);
        let part = feeding_rows(metrics.take(k), id);
        let front = feeding_rows(metrics.drop_last(), id);
        let all = feeding_rows(metrics, id);
        assert(all.take(part.len() as int) =~= front.take(part.len() as int));
    }
}

/// Reading samples into the totals of a round leaves the round's identifier
/// and timestamp as they are.
proof fn lemma_rows_keep_the_round(totals: UtilizationModel, rows: Seq<StoredMetric>)
    requires
        with_rows(totals, rows) is Ok,
    ensures
        with_rows(totals, rows)->Ok_0.round_id == totals.round_id,
        with_rows(totals, rows)->Ok_0.timestamp == totals.timestamp,
    decreases rows.len(),
{
    if rows.len() > 0 {
        lemma_rows_keep_the_round(totals, rows.drop_last());
    }
}

/// The totals from position `from` on belong to rounds at ascending
/// positions of `order`: the result names, for each of the totals, the
/// position of its round.
proof fn lemma_recent_from(
    rounds: Seq<CollectionRound>,
    order: Seq<usize>,
    from: int,
    metrics: Seq<StoredMetric>,
    budget: int,
) -> (places: Seq<int>)
    requires
        0 <= from,
        recent_from(rounds, order, from, metrics, budget) is Ok,
    ensures
        places.len() == recent_from(rounds, order, from, metrics, budget)->Ok_0.len(),
        forall|j: int| 0 <= j < places.len() ==> from <= #[trigger] places[j] < order.len(),
        forall|a: int, b: int| 0 <= a < b < places.len() ==> places[a] < places[b],
        forall|j: int|
            0 <= j < places.len() ==> (#[trigger] recent_from(
                rounds,
                order,
                from,
                metrics,
                budget,
            )->Ok_0[j]).round_id == rounds[order[places[j]] as int].id@ && recent_from(
                rounds,
                order,
                from,
                metrics,
                budget,
            )->Ok_0[j].timestamp == rounds[order[places[j]] as int].timestamp,
    decreases order.len() - from,
{
    if from >= order.len() || budget <= 0 {
        Seq::empty()
    } else {
        let round = rounds[order[from] as int];
        let read = within_budget(feeding_rows(metrics, round.id@), budget);
        let totals = with_rows(blank_totals(round), read)->Ok_0;
        lemma_rows_keep_the_round(blank_totals(round), read);
        let rest = recent_from(rounds, order, from + 1, metrics, budget - read.len());
        let later = lemma_recent_from(rounds, order, from + 1, metrics, budget - read.len());
        let all = recent_from(rounds, order, from, metrics, budget)->Ok_0;
        if read.len() > 0 {
            let places = seq![from] + later;
            assert(all =~= seq![totals] + rest->Ok_0);
            assert forall|j: int| 0 <= j < places.len() implies (#[trigger] all[j]).round_id
                == rounds[order[places[j]] as int].id@ && all[j].timestamp
                == rounds[order[places[j]] as int].timestamp by {
                if j > 0 {
                    assert(all[j] == rest->Ok_0[j - 1]);
                    assert(places[j] == later[j - 1]);
                }
            }
            assert forall|a: int, b: int| 0 <= a < b < places.len() implies places[a]
                < places[b] by {
                assert(places[b] == later[b - 1]);
                if a > 0 {
                    assert(places[a] == later[a - 1]);
                }
            }
            places
        } else {
            assert(all =~= rest->Ok_0);
            later
        }
    }
}

/// The totals of the most recent rounds run from the most recent to the
/// oldest, and where no two stored rounds share an identifier, no two of the
/// totals do.
pub proof fn lemma_recent_utilization(
    rounds: Seq<CollectionRound>,
    metrics: Seq<StoredMetric>,
    wanted: usize,
)
    requires
        rounds.len() <= usize::MAX,
        recent_utilization(rounds, metrics, wanted) is Ok,
    ensures
        forall|a: int, b: int|
            0 <= a < b < recent_utilization(rounds, metrics, wanted)->Ok_0.len() ==> (
            #[trigger] recent_utilization(rounds, metrics, wanted)->Ok_0[a]).timestamp >= (
            #[trigger] recent_utilization(rounds, metrics, wanted)->Ok_0[b]).timestamp,
        (forall|i: int, j: int|
            0 <= i < j < rounds.len() ==> (#[trigger] rounds[i]).id@ != (#[trigger] rounds[j]).id@)
            ==> forall|a: int, b: int|
            0 <= a < b < recent_utilization(rounds, metrics, wanted)->Ok_0.len() ==> (
            #[trigger] recent_utilization(rounds, metrics, wanted)->Ok_0[a]).round_id != (
            #[trigger] recent_utilization(rounds, metrics, wanted)->Ok_0[b]).round_id,
{
    let times = round_times(rounds);
    let order = stable_order(times);
    let recent = latest_first(times);
    let list = recent_utilization(rounds, metrics, wanted)->Ok_0;
    lemma_stable_order_sorts(times);
    let places = lemma_recent_from(rounds, recent, 0, metrics, wanted * 5);
    assert forall|a: int, b: int| 0 <= a < b < list.len() implies (#[trigger] list[a]).timestamp
        >= (#[trigger] list[b]).timestamp && recent[places[a]] != recent[places[b]] by {
        let x = places[a];
        let y = places[b];
        assert(x < y);
        assert(recent[x] == order[order.len() - 1 - x]);
        assert(recent[y] == order[order.len() - 1 - y]);
        assert(precedes(times, order[order.len() - 1 - y], order[order.len() - 1 - x]));
    }
    if forall|i: int, j: int|
        0 <= i < j < rounds.len() ==> (#[trigger] rounds[i]).id@ != (#[trigger] rounds[j]).id@ {
        assert forall|a: int, b: int| 0 <= a < b < list.len() implies (
        #[trigger] list[a]).round_id != (#[trigger] list[b]).round_id by {
            let p = recent[places[a]] as int;
            let q = recent[places[b]] as int;
            assert(list[a].timestamp >= list[b].timestamp && recent[places[a]]
                != recent[places[b]]);
            assert(recent[places[a]] == order[order.len() - 1 - places[a]]);
            assert(recent[places[b]] == order[order.len() - 1 - places[b]]);
            assert(p < rounds.len() && q < rounds.len());
            if p < q {
                assert(rounds[p].id@ != rounds[q].id@);
            } else {
                assert(rounds[q].id@ != rounds[p].id@);
            }
        }
    }
}

/// Once the first rows are refused, so is every longer list of rows.
proof fn lemma_refused_rows_stay(totals: UtilizationModel, rows: Seq<StoredMetric>, n: int)
    requires
        0 <= n <= rows.len(),
        with_rows(totals, rows.take(n)) is Err,
    ensures
        with_rows(totals, rows) == with_rows(totals, rows.take(n)),
    decreases rows.len(),
{
    if n == rows.len() {
        assert(rows.take(n) =~= rows);
    } else {
        assert(rows.drop_last().take(n) =~= rows.take(n));
        lemma_refused_rows_stay(totals, rows.drop_last(), n);
    }
}

/// The total that samples of a name set.
pub fn field_of_name(name: &str) -> (field: Option<TotalsField>)
    ensures
        field == field_named(name@),
{
    if same_text(name, "cpu.performance.total_ticks") {
        Some(TotalsField::PerformanceTotal)
    } else if same_text(name, "cpu.performance.idle_ticks") {
        Some(TotalsField::PerformanceIdle)
    } else if same_text(name, "cpu.efficiency.total_ticks") {
        Some(TotalsField::EfficiencyTotal)
    } else if same_text(name, "cpu.efficiency.idle_ticks") {
        Some(TotalsField::EfficiencyIdle)
    } else if same_text(name, "gpu.utilization") {
        Some(TotalsField::GraphicsUtilization)
    } else {
        None
    }
}

/// Reads a value as a whole number.
pub fn read_whole(value: &MetricValue) -> (whole: Result<i64, ValidationError>)
    ensures
        whole == whole_reading(*value),
{
    match value {
        MetricValue::Integer(v) => Ok(*v),
        MetricValue::String(text) => match parse_i64(text.as_str()) {
            Some(v) => Ok(v),
            None => Err(ValidationError::NotAnInteger),
        },
        _ => Err(ValidationError::NotAnInteger),
    }
}

/// Reads a value as a fixed-point number.
pub fn read_fixed(value: &MetricValue) -> (fixed: Result<i64, ValidationError>)
    ensures
        fixed == fixed_reading(*value),
{
    match value {
        MetricValue::Float(bits) => fixed_from_bits(*bits),
        _ => match read_whole(value) {
            Ok(v) => {
                let scaled: i128 = (v as i128) * 1_000_000;
                if scaled < -0x8000_0000_0000_0000 || scaled > 0x7fff_ffff_ffff_ffff {
                    Err(ValidationError::OutOfRange)
                } else {
                    Ok(scaled as i64)
                }
            },
            Err(e) => Err(e),
        },
    }
}

/// Reads one more sample into the totals of its round.
pub fn read_row(totals: &mut UtilizationData, row: &StoredMetric) -> (read: Result<
    (),
    ValidationError,
>)
    ensures
        match read {
            Ok(_) => with_row(old(totals)@, *row) == Ok::<UtilizationModel, ValidationError>(
                final(totals)@,
            ),
            Err(reason) => with_row(old(totals)@, *row) == Err::<
                UtilizationModel,
                ValidationError,
            >(reason) && *final(totals) == *old(totals),
        },
{
    match field_of_name(row.metric.name.as_str()) {
        Some(TotalsField::PerformanceTotal) => match read_whole(&row.metric.value) {
            Ok(v) => {
                totals.perf_total = v;
                Ok(())
            },
            Err(e) => Err(e),
        },
        Some(TotalsField::PerformanceIdle) => match read_whole(&row.metric.value) {
            Ok(v) => {
                totals.perf_idle = v;
                Ok(())
            },
            Err(e) => Err(e),
        },
        Some(TotalsField::EfficiencyTotal) => match read_whole(&row.metric.value) {
            Ok(v) => {
                totals.eff_total = v;
                Ok(())
            },
            Err(e) => Err(e),
        },
        Some(TotalsField::EfficiencyIdle) => match read_whole(&row.metric.value) {
            Ok(v) => {
                totals.eff_idle = v;
                Ok(())
            },
            Err(e) => Err(e),
        },
        Some(TotalsField::GraphicsUtilization) => match read_fixed(&row.metric.value) {
            Ok(v) => {
                totals.gpu_util = v;
                Ok(())
            },
            Err(e) => Err(e),
        },
        None => Ok(()),
    }
}

impl SqliteStorage {
    /// The totals of the most recent rounds, most recent first.
    ///
    /// At most five samples are read for each of the `rounds` that are asked
    /// for, the most recent rounds first. The first sample among them whose
    /// value cannot be read refuses the whole, and is named.
    pub fn get_recent_utilization_data(&self, rounds: usize) -> (data: Result<
        Vec<UtilizationData>,
        RefusedValue,
    >)
        ensures
            match data {
                Ok(list) => recent_utilization(self.rounds@, self.metrics@, rounds) == Ok::<
                    Seq<UtilizationModel>,
                    RefusedValueModel,
                >(utilization_models(list@)),
                Err(refused) => recent_utilization(self.rounds@, self.metrics@, rounds) == Err::<
                    Seq<UtilizationModel>,
                    RefusedValueModel,
                >(refused@),
            },
    {
        let n = self.rounds.len();
        let mut times: Vec<i64> = Vec::new();
        let mut i: usize = 0;
        while i < n
            invariant
                i <= n,
                n == self.rounds@.len(),
                times@ =~= round_times(self.rounds@).take(i as int),
            decreases n - i,
        {
            times.push(self.rounds[i].timestamp);
            i = i + 1;
        }
        assert(round_times(self.rounds@).take(n as int) =~= round_times(self.rounds@));
        let order = stable_order_of(&times);
        let ghost recent = latest_first(round_times(self.rounds@));
        let mut budget: u128 = (rounds as u128) * 5;
        let mut data: Vec<UtilizationData> = Vec::new();
        let mut j: usize = 0;
        assert(utilization_models(data@) + Seq::<UtilizationModel>::empty() =~= Seq::empty());
        while j < n && budget > 0
            invariant
                j <= n,
                n == self.rounds@.len(),
                order@ == stable_order(round_times(self.rounds@)),
                order@.len() == n,
                recent == latest_first(round_times(self.rounds@)),
                recent.len() == n,
                forall|k: int| 0 <= k < order@.len() ==> (#[trigger] order@[k]) < n,
                followed_by(
                    utilization_models(data@),
                    recent_from(self.rounds@, recent, j as int, self.metrics@, budget as int),
                ) == recent_utilization(self.rounds@, self.metrics@, rounds),
            decreases n - j,
        {
            let at = order[n - 1 - j];
            assert(recent[j as int] == at);
            let round = &self.rounds[at];
            let ghost all = feeding_rows(self.metrics@, round.id@);
            let mut totals = UtilizationData {
                round_id: round.id.clone(),
                timestamp: round.timestamp,
                perf_total: 0,
                perf_idle: 0,
                eff_total: 0,
                eff_idle: 0,
                gpu_util: 0,
            };
            let mut read: u128 = 0;
            let mut k: usize = 0;
            let m = self.metrics.len();
            while k < m && read < budget
                invariant
                    k <= m,
                    m == self.metrics@.len(),
                    at < self.rounds@.len(),
                    *round == self.rounds@[at as int],
                    all == feeding_rows(self.metrics@, round.id@),
                    read <= budget,
                    read == feeding_rows(self.metrics@.take(k as int), round.id@).len(),
                    with_rows(
                        blank_totals(*round),
                        feeding_rows(self.metrics@.take(k as int), round.id@),
                    ) == Ok::<UtilizationModel, RefusedValueModel>(totals@),
                    followed_by(
                        utilization_models(data@),
                        recent_from(self.rounds@, recent, j as int, self.metrics@, budget as int),
                    ) == recent_utilization(self.rounds@, self.metrics@, rounds),
                    recent[j as int] == at,
                    j < recent.len(),
                    budget > 0,
                decreases m - k,
            {
                let row = &self.metrics[k];
                let ghost seen = feeding_rows(self.metrics@.take(k as int), round.id@);
                assert(self.metrics@.take(k + 1).drop_last() =~= self.metrics@.take(k as int));
                if same_text(row.collection_round_id.as_str(), round.id.as_str())
                    && field_of_name(row.metric.name.as_str()).is_some() {
                    assert(seen.push(*row).drop_last() =~= seen);
                    match read_row(&mut totals, row) {
                        Ok(_) => {},
                        Err(reason) => {
                            proof {
                                let more = seen.push(*row);
                                lemma_feeding_rows_prefix(self.metrics@, round.id@, k + 1);
                                assert(more == all.take(more.len() as int));
                                let within = within_budget(all, budget as int);
                                assert(more =~= within.take(more.len() as int));
                                lemma_refused_rows_stay(
                                    blank_totals(*round),
                                    within,
                                    more.len() as int,
                                );
                            }
                            return Err(
                                RefusedValue {
                                    round_id: row.collection_round_id.clone(),
                                    name: row.metric.name.clone(),
                                    reason,
                                },
                            );
                        },
                    }
                    read = read + 1;
                }
                k = k + 1;
            }
            proof {
                lemma_feeding_rows_prefix(self.metrics@, round.id@, k as int);
                let seen = feeding_rows(self.metrics@.take(k as int), round.id@);
                if k == m {
                    assert(self.metrics@.take(k as int) =~= self.metrics@);
                }
                assert(seen == within_budget(all, budget as int));
            }
            let ghost before = utilization_models(data@);
            let ghost head: Seq<UtilizationModel> = if read > 0 {
                seq![totals@]
            } else {
                Seq::empty()
            };
            let ghost rest = recent_from(
                self.rounds@,
                recent,
                j + 1,
                self.metrics@,
                budget - read,
            );
            if read > 0 {
                let ghost was = data@;
                data.push(totals);
                assert(utilization_models(data@) =~= utilization_models(was).push(totals@));
            }
            assert(utilization_models(data@) =~= before + head);
            proof {
                match rest {
                    Ok(tail) => {
                        assert(before + (head + tail) =~= (before + head) + tail);
                    },
                    Err(_) => {},
                }
                assert(followed_by(before, followed_by(head, rest)) == followed_by(
                    before + head,
                    rest,
                ));
            }
            budget = budget - read;
            j = j + 1;
        }
        assert(utilization_models(data@) + Seq::<UtilizationModel>::empty() =~= utilization_models(
            data@,
        ));
        Ok(data)
    }

    /// Generates the charts of a round from the most recent rounds and
    /// stores them, stamped with the present instant.
    ///
    /// The totals of one round more than `data_points` are read. A sample
    /// among them whose value cannot be read refuses the whole, and the
    /// store stays as it is. With fewer than two rounds at hand there is
    /// nothing to chart, and the store stays as it is too. The clock decides
    /// the timestamp of the charts.
    pub fn generate_and_store_charts(&mut self, collection_round_id: &str, data_points: usize)
        -> (generated: Result<(), RefusedValue>)
        ensures
            match generated {
                Ok(_) => match recent_utilization(
                    old(self).rounds@,
                    old(self).metrics@,
                    rounds_needed(data_points),
                ) {
                    Ok(recent) => (exists|timestamp: i64|
                        chart_models(final(self).charts@) == chart_models(old(self).charts@)
                            + #[trigger] generated_charts(
                            collection_round_id@,
                            data_points,
                            recent,
                            timestamp,
                        )) && (recent.len() < 2 ==> final(self).charts@ == old(self).charts@),
                    Err(_) => false,
                },
                Err(refused) => recent_utilization(
                    old(self).rounds@,
                    old(self).metrics@,
                    rounds_needed(data_points),
                ) == Err::<Seq<UtilizationModel>, RefusedValueModel>(refused@)
                    && final(self).charts@ == old(self).charts@,
            },
            final(self).db_path == old(self).db_path,
            final(self).rounds == old(self).rounds,
            final(self).metrics == old(self).metrics,
    {
        let rounds: usize = if data_points == usize::MAX {
            data_points
        } else {
            data_points + 1
        };
        let data = match self.get_recent_utilization_data(rounds) {
            Ok(data) => data,
            Err(refused) => {
                return Err(refused);
            },
        };
        let timestamp = now_millis();
        self.generate_and_store_charts_from(collection_round_id, data_points, &data, timestamp);
        assert(chart_models(self.charts@) == chart_models(old(self).charts@) + generated_charts(
            collection_round_id@,
            data_points,
            utilization_models(data@),
            timestamp,
        ));
        Ok(())
    }
}

} // verus!
