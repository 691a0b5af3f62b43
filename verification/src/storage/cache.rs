//! The chart cache: charts are appended as they are generated, and read back
//! most recent first.
//!
//! Generating the charts of a round again appends them again; nothing is
//! overwritten. The cache numbers its rows itself: the `id` that a chart is
//! handed in with is not kept, and a chart that is read back carries none.

use vstd::prelude::*;
use crate::order::{
    entered, latest_first, lemma_stable_order_sorts, precedes, stable_order, stable_order_of,
};
use crate::storage::sqlite::SqliteStorage;
use crate::storage::{Chart, ChartType};
use crate::text::same_text;

verus! {

/// Whether `name` is one of `names`.
pub open spec fn names_contain(names: Seq<&str>, name: Seq<char>) -> bool {
    exists|i: int| 0 <= i < names.len() && (#[trigger] names[i])@ == name
}

/// Whether a chart is asked for: it has the encoding, and its series is one
/// of those named.
pub open spec fn is_wanted(chart: Chart, names: Seq<&str>, chart_type: ChartType) -> bool {
    chart.chart_type == chart_type && names_contain(names, chart.metric_name@)
}

/// The charts that are asked for, in the order in which they were stored.
pub open spec fn wanted_charts(charts: Seq<Chart>, names: Seq<&str>, chart_type: ChartType)
    -> Seq<Chart>
    decreases charts.len(),
{
    if charts.len() == 0 {
        Seq::empty()
    } else {
        let earlier = wanted_charts(charts.drop_last(), names, chart_type);
        if is_wanted(charts.last(), names, chart_type) {
            earlier.push(charts.last())
        } else {
            earlier
        }
    }
}

/// The times of the charts.
pub open spec fn chart_times(charts: Seq<Chart>) -> Seq<i64> {
    Seq::new(charts.len(), |i: int| charts[i].timestamp)
}

/// The smaller of a limit and a length.
pub open spec fn at_most(limit: usize, len: nat) -> nat {
    if limit < len {
        limit as nat
    } else {
        len
    }
}

/// A chart without the number of its row.
pub open spec fn without_id(chart: Chart) -> Chart {
    Chart { id: None, ..chart }
}

/// The charts that are asked for, most recent first and among charts of one
/// instant the one stored last first, cut off after `limit` charts, each
/// without the number of its row.
pub open spec fn latest_charts(
    charts: Seq<Chart>,
    names: Seq<&str>,
    chart_type: ChartType,
    limit: usize,
) -> Seq<Chart> {
    let wanted = wanted_charts(charts, names, chart_type);
    let order = latest_first(chart_times(wanted));
    Seq::new(at_most(limit, wanted.len()), |j: int| without_id(wanted[order[j] as int]))
}

/// The latest charts are charts that were asked for, without the numbers of
/// their rows and no more than the limit, and none of them is older than
/// the one after it.
pub proof fn lemma_latest_charts(
    charts: Seq<Chart>,
    names: Seq<&str>,
    chart_type: ChartType,
    limit: usize,
)
    requires
        charts.len() <= usize::MAX,
    ensures
        latest_charts(charts, names, chart_type, limit).len() <= limit,
        latest_charts(charts, names, chart_type, limit).len() <= wanted_charts(
            charts,
            names,
            chart_type,
        ).len(),
        forall|j: int|
            0 <= j < latest_charts(charts, names, chart_type, limit).len() ==> (
            #[trigger] latest_charts(charts, names, chart_type, limit)[j]).id is None && exists|
                k: int,
            |
                0 <= k < charts.len() && is_wanted(#[trigger] charts[k], names, chart_type)
                    && latest_charts(charts, names, chart_type, limit)[j] == without_id(charts[k]),
        forall|a: int, b: int|
            0 <= a < b < latest_charts(charts, names, chart_type, limit).len() ==> (
            #[trigger] latest_charts(charts, names, chart_type, limit)[a]).timestamp >= (
            #[trigger] latest_charts(charts, names, chart_type, limit)[b]).timestamp,
{
    let wanted = wanted_charts(charts, names, chart_type);
    let times = chart_times(wanted);
    let order = stable_order(times);
    let recent = latest_first(times);
    let latest = latest_charts(charts, names, chart_type, limit);
    lemma_wanted_is_no_longer(charts, names, chart_type);
    lemma_stable_order_sorts(times);
    assert forall|j: int| 0 <= j < latest.len() implies (#[trigger] latest[j]).id is None
        && exists|k: int|
        0 <= k < charts.len() && is_wanted(#[trigger] charts[k], names, chart_type) && latest[j]
            == without_id(charts[k]) by {
        assert(recent[j] == order[order.len() - 1 - j]);
        assert(order[order.len() - 1 - j] < wanted.len());
        assert(latest[j] == without_id(wanted[recent[j] as int]));
        lemma_wanted_is_stored(charts, names, chart_type, recent[j] as int);
    }
    assert forall|a: int, b: int| 0 <= a < b < latest.len() implies (
    #[trigger] latest[a]).timestamp >= (#[trigger] latest[b]).timestamp by {
        assert(recent[a] == order[order.len() - 1 - a]);
        assert(recent[b] == order[order.len() - 1 - b]);
        assert(precedes(times, order[order.len() - 1 - b], order[order.len() - 1 - a]));
    }
}

/// A chart that has just been stored, and is not older than any stored
/// chart that is asked for with it, is the latest: asking for its series and
/// encoding with a limit of 1 gives back that chart alone, without the
/// number of its row, and asking for the other encoding does not give it.
pub proof fn lemma_stored_chart_is_latest(
    charts: Seq<Chart>,
    chart: Chart,
    names: Seq<&str>,
    other: ChartType,
)
    requires
        charts.len() < usize::MAX,
        names_contain(names, chart.metric_name@),
        forall|k: int|
            0 <= k < charts.len() && is_wanted(#[trigger] charts[k], names, chart.chart_type)
                ==> charts[k].timestamp <= chart.timestamp,
        other != chart.chart_type,
    ensures
        latest_charts(charts.push(without_id(chart)), names, chart.chart_type, 1) == seq![
            without_id(chart),
        ],
        forall|j: int, limit: usize|
            0 <= j < latest_charts(charts.push(without_id(chart)), names, other, limit).len()
                ==> (#[trigger] latest_charts(
                charts.push(without_id(chart)),
                names,
                other,
                limit,
            )[j]).chart_type == other,
{
    let stored = charts.push(without_id(chart));
    let before = wanted_charts(charts, names, chart.chart_type);
    let wanted = wanted_charts(stored, names, chart.chart_type);
    assert(stored.drop_last() =~= charts);
    assert(is_wanted(stored.last(), names, chart.chart_type));
    assert(wanted == before.push(without_id(chart)));
    let times = chart_times(wanted);
    let n = before.len();
    lemma_wanted_is_no_longer(charts, names, chart.chart_type);
    assert(times.drop_last() =~= chart_times(before));
    lemma_stable_order_sorts(chart_times(before));
    let earlier = stable_order(chart_times(before));
    assert(stable_order(times) == entered(earlier, times, n as usize));
    if earlier.len() > 0 {
        let last = earlier.last();
        assert(earlier[earlier.len() - 1] == last);
        assert(last < n);
        lemma_wanted_is_stored(charts, names, chart.chart_type, last as int);
        assert(times[last as int] == before[last as int].timestamp);
        assert(times[last as int] <= times[n as int]);
    }
    assert(stable_order(times) == earlier.push(n as usize));
    let recent = latest_first(times);
    assert(recent[0] == n);
    assert(without_id(without_id(chart)) == without_id(chart));
    assert(latest_charts(stored, names, chart.chart_type, 1) =~= seq![without_id(chart)]);
    assert forall|j: int, limit: usize|
        0 <= j < latest_charts(stored, names, other, limit).len() implies (
    #[trigger] latest_charts(stored, names, other, limit)[j]).chart_type == other by {
        lemma_latest_charts(stored, names, other, limit);
        let k = choose|k: int|
            0 <= k < stored.len() && is_wanted(#[trigger] stored[k], names, other)
                && latest_charts(stored, names, other, limit)[j] == without_id(stored[k]);
        assert(without_id(stored[k]).chart_type == other);
    }
}

/// Every chart that is asked for is a stored chart with the encoding and one
/// of the series asked for.
proof fn lemma_wanted_is_stored(
    charts: Seq<Chart>,
    names: Seq<&str>,
    chart_type: ChartType,
    j: int,
)
    requires
        0 <= j < wanted_charts(charts, names, chart_type).len(),
    ensures
        exists|k: int|
            0 <= k < charts.len() && is_wanted(#[trigger] charts[k], names, chart_type)
                && wanted_charts(charts, names, chart_type)[j] == charts[k],
    decreases charts.len(),
{
    let front = charts.drop_last();
    let earlier = wanted_charts(front, names, chart_type);
    if j < earlier.len() {
        lemma_wanted_is_stored(front, names, chart_type, j);
        let k = choose|k: int|
            0 <= k < front.len() && is_wanted(#[trigger] front[k], names, chart_type)
                && earlier[j] == front[k];
        assert(charts[k] == front[k]);
    } else {
        assert(charts[charts.len() - 1] == charts.last());
    }
}

/// No more charts are asked for than there are.
proof fn lemma_wanted_is_no_longer(charts: Seq<Chart>, names: Seq<&str>, chart_type: ChartType)
    ensures
        wanted_charts(charts, names, chart_type).len() <= charts.len(),
    decreases charts.len(),
{
    if charts.len() > 0 {
        lemma_wanted_is_no_longer(charts.drop_last(), names, chart_type);
    }
}

/// What the positions in `picked` pick from `charts`.
pub open spec fn picked_from(charts: Seq<Chart>, picked: Seq<usize>) -> Seq<Chart> {
    Seq::new(picked.len(), |k: int| charts[picked[k] as int])
}

impl SqliteStorage {
    /// Appends a chart to the cache. The `id` of the chart is not kept: the
    /// cache numbers its rows itself.
    pub fn store_chart(&mut self, chart: &Chart)
        ensures
            final(self).charts@ == old(self).charts@.push(without_id(*chart)),
            final(self).db_path == old(self).db_path,
            final(self).rounds == old(self).rounds,
            final(self).metrics == old(self).metrics,
    {
        let mut row = chart.clone();
        row.id = None;
        self.charts.push(row);
    }

    /// Whether `name` is one of `names`.
    pub fn is_named(names: &[&str], name: &str) -> (found: bool)
        ensures
            found == names_contain(names@, name@),
    {
        let mut i: usize = 0;
        while i < names.len()
            invariant
                i <= names@.len(),
                forall|k: int| 0 <= k < i ==> (#[trigger] names@[k])@ != name@,
            decreases names@.len() - i,
        {
            if same_text(names[i], name) {
                return true;
            }
            i = i + 1;
        }
        false
    }

    /// The latest charts of the named series in one encoding: at most
    /// `limit` of them, most recent first, each without the number of its
    /// row.
    pub fn get_latest_charts(&self, metric_names: &[&str], chart_type: &ChartType, limit: usize)
        -> (latest: Vec<Chart>)
        ensures
            latest@ == latest_charts(self.charts@, metric_names@, *chart_type, limit),
    {
        let n = self.charts.len();
        let mut picked: Vec<usize> = Vec::new();
        let mut times: Vec<i64> = Vec::new();
        let mut i: usize = 0;
        while i < n
            invariant
                i <= n,
                n == self.charts@.len(),
                picked@.len() == times@.len(),
                forall|k: int| 0 <= k < picked@.len() ==> (#[trigger] picked@[k]) < i,
                picked_from(self.charts@, picked@) =~= wanted_charts(
                    self.charts@.take(i as int),
                    metric_names@,
                    *chart_type,
                ),
                times@ =~= chart_times(picked_from(self.charts@, picked@)),
            decreases n - i,
        {
            assert(self.charts@.take(i + 1).drop_last() =~= self.charts@.take(i as int));
            let chart = &self.charts[i];
            if chart.chart_type == *chart_type && Self::is_named(
                metric_names,
                chart.metric_name.as_str(),
            ) {
                picked.push(i);
                times.push(chart.timestamp);
            }
            i = i + 1;
        }
        assert(self.charts@.take(n as int) =~= self.charts@);
        let ghost wanted = wanted_charts(self.charts@, metric_names@, *chart_type);
        let order = stable_order_of(&times);
        let m = picked.len();
        let count = if limit < m {
            limit
        } else {
            m
        };
        let mut latest: Vec<Chart> = Vec::new();
        let mut j: usize = 0;
        while j < count
            invariant
                j <= count <= m,
                m == picked@.len(),
                count == at_most(limit, m as nat),
                wanted == picked_from(self.charts@, picked@),
                wanted == wanted_charts(self.charts@, metric_names@, *chart_type),
                forall|k: int| 0 <= k < picked@.len() ==> (#[trigger] picked@[k]) < self.charts@.len(),
                order@ == stable_order(chart_times(wanted)),
                order@.len() == m,
                forall|k: int| 0 <= k < order@.len() ==> (#[trigger] order@[k]) < m,
                latest@ =~= latest_charts(self.charts@, metric_names@, *chart_type, limit).take(
                    j as int,
                ),
            decreases count - j,
        {
            let at = order[m - 1 - j];
            proof {
                let all = latest_charts(self.charts@, metric_names@, *chart_type, limit);
                let recent = latest_first(chart_times(wanted));
                assert(wanted.len() == m);
                assert(wanted_charts(self.charts@, metric_names@, *chart_type) == wanted);
                assert(all.len() == count);
                assert(recent[j as int] == order@[m - 1 - j]);
                assert(all[j as int] == without_id(wanted[at as int]));
                assert(all.take(j + 1) =~= all.take(j as int).push(all[j as int]));
            }
            let mut chart = self.charts[picked[at]].clone();
            chart.id = None;
            latest.push(chart);
            j = j + 1;
        }
        assert(latest_charts(self.charts@, metric_names@, *chart_type, limit).take(count as int)
            =~= latest_charts(self.charts@, metric_names@, *chart_type, limit));
        latest
    }
}

} // verus!
