//! The charts of the most recent round on one line.
//!
//! The line holds the charts of the three series in their fixed order, each
//! behind a short prefix, and ends without the closing delimiter.

use vstd::prelude::*;
use vstd::string::*;
use crate::storage::Chart;
use crate::text::same_text;

verus! {

/// The prefix of a series on the line; a series that is not charted has
/// none.
pub open spec fn series_prefix(metric: Seq<char>) -> Seq<char> {
    if metric == "performance_cores_utilization"@ {
        "P:"@
    } else if metric == "efficiency_cores_utilization"@ {
        "E:"@
    } else if metric == "gpu_utilization"@ {
        "G:"@
    } else {
        ""@
    }
}

/// The first chart of a series in a round.
pub open spec fn found_chart(charts: Seq<Chart>, round: Seq<char>, metric: Seq<char>) -> Option<
    Chart,
>
    decreases charts.len(),
{
    if charts.len() == 0 {
        None
    } else if charts[0].collection_round_id@ == round && charts[0].metric_name@ == metric {
        Some(charts[0])
    } else {
        found_chart(charts.drop_first(), round, metric)
    }
}

/// What a series adds to the line: its prefix and its chart, or nothing if
/// the round has no chart of the series.
pub open spec fn series_part(charts: Seq<Chart>, round: Seq<char>, metric: Seq<char>) -> Seq<char> {
    match found_chart(charts, round, metric) {
        Some(chart) => series_prefix(metric) + chart.chart_data@,
        None => Seq::empty(),
    }
}

/// `text` without the delimiters at its end.
pub open spec fn without_closing(text: Seq<char>) -> Seq<char>
    decreases text.len(),
{
    if text.len() > 0 && text.last() == '|' {
        without_closing(text.drop_last())
    } else {
        text
    }
}

/// The three parts of the line for a round, delimiters and all.
pub open spec fn round_line(charts: Seq<Chart>, round: Seq<char>) -> Seq<char> {
    series_part(charts, round, "performance_cores_utilization"@) + series_part(
        charts,
        round,
        "efficiency_cores_utilization"@,
    ) + series_part(charts, round, "gpu_utilization"@)
}

/// The line for charts given most recent first: that of the round of the
/// first chart. Without charts there is no line.
pub open spec fn compact_line(charts: Seq<Chart>) -> Option<Seq<char>> {
    if charts.len() == 0 {
        None
    } else {
        Some(without_closing(round_line(charts, charts[0].collection_round_id@)))
    }
}

/// Appends the characters of `text` to `out`.
pub fn append_chars(out: &mut Vec<char>, text: &str)
    ensures
        final(out)@ == old(out)@ + text@,
{
    let ghost start = out@;
    let n = text.unicode_len();
    let mut i: usize = 0;
    while i < n
        invariant
            i <= n,
            n == text@.len(),
            out@ =~= start + text@.take(i as int),
        decreases n - i,
    {
        out.push(text.get_char(i));
        i = i + 1;
    }
    assert(text@.take(n as int) =~= text@);
}

/// Finds the first chart of a series in a round.
pub fn find_chart<'a>(charts: &'a Vec<Chart>, round: &str, metric: &str) -> (chart: Option<
    &'a Chart,
>)
    ensures
        match chart {
            Some(c) => found_chart(charts@, round@, metric@) == Some(*c),
            None => found_chart(charts@, round@, metric@) is None,
        },
{
    let mut i: usize = 0;
    assert(charts@.skip(0) =~= charts@);
    while i < charts.len()
        invariant
            i <= charts@.len(),
            found_chart(charts@, round@, metric@) == found_chart(
                charts@.skip(i as int),
                round@,
                metric@,
            ),
        decreases charts@.len() - i,
    {
        assert(charts@.skip(i as int).drop_first() =~= charts@.skip(i + 1));
        if same_text(charts[i].collection_round_id.as_str(), round) && same_text(
            charts[i].metric_name.as_str(),
            metric,
        ) {
            return Some(&charts[i]);
        }
        i = i + 1;
    }
    None
}

/// Appends what a series adds to the line.
pub fn append_series(out: &mut Vec<char>, charts: &Vec<Chart>, round: &str, metric: &str)
    ensures
        final(out)@ == old(out)@ + series_part(charts@, round@, metric@),
{
    let ghost start = out@;
    match find_chart(charts, round, metric) {
        Some(chart) => {
            let prefix = if same_text(metric, "performance_cores_utilization") {
                "P:"
            } else if same_text(metric, "efficiency_cores_utilization") {
                "E:"
            } else if same_text(metric, "gpu_utilization") {
                "G:"
            } else {
                ""
            };
            append_chars(out, prefix);
            append_chars(out, chart.chart_data.as_str());
            assert(out@ =~= start + (series_prefix(metric@) + chart.chart_data@));
        },
        None => {
            assert(out@ =~= start + Seq::<char>::empty());
        },
    }
}

/// The charts of the most recent round on one line, for charts given most
/// recent first.
pub fn compact_output(charts: &Vec<Chart>) -> (line: Option<String>)
    ensures
        match line {
            Some(text) => compact_line(charts@) == Some(text@),
            None => compact_line(charts@) is None,
        },
{
    if charts.len() == 0 {
        return None;
    }
    let round = charts[0].collection_round_id.as_str();
    let mut whole: Vec<char> = Vec::new();
    append_series(&mut whole, charts, round, "performance_cores_utilization");
    append_series(&mut whole, charts, round, "efficiency_cores_utilization");
    append_series(&mut whole, charts, round, "gpu_utilization");
    assert(whole@ =~= round_line(charts@, round@));
    let mut kept: usize = whole.len();
    assert(whole@.take(kept as int) =~= whole@);
    while kept > 0 && whole[kept - 1] == '|'
        invariant
            kept <= whole@.len(),
            without_closing(whole@) == without_closing(whole@.take(kept as int)),
        decreases kept,
    {
        assert(whole@.take(kept as int).drop_last() =~= whole@.take(kept - 1));
        kept = kept - 1;
    }
    let mut text = String::new();
    let mut i: usize = 0;
    while i < kept
        invariant
            i <= kept <= whole@.len(),
            text@ =~= whole@.take(i as int),
        decreases kept - i,
    {
        text.push(whole[i]);
        i = i + 1;
    }
    Some(text)
}

} // verus!
