//! Rows as the database holds them, and the values that they stand for.
//!
//! The database keeps an instant as RFC 3339 text, an encoding by its name
//! and a count as a signed integer. Reading a row makes sure of all three.

use vstd::prelude::*;
use vstd::string::*;
use crate::clock::{format_rfc3339, parse_rfc3339, rfc3339_instant, rfc3339_text};
use crate::storage::{chart_type_name, chart_type_named, Chart, ChartModel, ChartType, CollectionRound};

verus! {

/// Why a row cannot be read or written.
#[derive(Debug, Clone, Copy, PartialEq, Eq, Structural)]
pub enum RowError {
    /// The name of the encoding is not one of the two.
    InvalidChartType,
    /// The instant has no RFC 3339 form, or the text is not one.
    InvalidTimestamp,
    /// The count is negative or too large.
    InvalidCount,
}

/// A row of the chart table.
#[derive(Debug, Clone, PartialEq, Eq)]
pub struct ChartRow {
    pub collection_round_id: String,
    pub metric_name: String,
    pub chart_type: String,
    pub chart_data: String,
    pub data_points: i64,
    pub timestamp: String,
}

/// A row of the table of collection rounds.
#[derive(Debug, Clone, PartialEq, Eq)]
pub struct RoundRow {
    pub id: String,
    pub timestamp: String,
    pub metrics_count: i64,
}

/// A chart row with every text as a sequence of characters.
pub struct ChartRowModel {
    pub collection_round_id: Seq<char>,
    pub metric_name: Seq<char>,
    pub chart_type: Seq<char>,
    pub chart_data: Seq<char>,
    pub data_points: i64,
    pub timestamp: Seq<char>,
}

impl View for ChartRow {
    type V = ChartRowModel;

    open spec fn view(&self) -> ChartRowModel {
        ChartRowModel {
            collection_round_id: self.collection_round_id@,
            metric_name: self.metric_name@,
            chart_type: self.chart_type@,
            chart_data: self.chart_data@,
            data_points: self.data_points,
            timestamp: self.timestamp@,
        }
    }
}

/// The chart that a row stands for, given what its encoding and its instant
/// were read as. The encoding is looked at first, then the instant, then the
/// count.
pub open spec fn chart_of_row(
    row: ChartRowModel,
    chart_type: Option<ChartType>,
    instant: Option<i64>,
) -> Result<ChartModel, RowError> {
    match chart_type {
        None => Err(RowError::InvalidChartType),
        Some(chart_type) => match instant {
            None => Err(RowError::InvalidTimestamp),
            Some(timestamp) => if 0 <= row.data_points <= usize::MAX {
                Ok(
                    ChartModel {
                        id: None,
                        collection_round_id: row.collection_round_id,
                        metric_name: row.metric_name,
                        chart_type,
                        chart_data: row.chart_data,
                        data_points: row.data_points as usize,
                        timestamp,
                    },
                )
            } else {
                Err(RowError::InvalidCount)
            },
        },
    }
}

/// The row that stands for a chart, given the text of its instant. The
/// instant is looked at first, then the count.
pub open spec fn row_of_chart(chart: ChartModel, timestamp: Option<Seq<char>>) -> Result<
    ChartRowModel,
    RowError,
> {
    match timestamp {
        None => Err(RowError::InvalidTimestamp),
        Some(timestamp) => if chart.data_points <= i64::MAX {
            Ok(
                ChartRowModel {
                    collection_round_id: chart.collection_round_id,
                    metric_name: chart.metric_name,
                    chart_type: chart_type_name(chart.chart_type),
                    chart_data: chart.chart_data,
                    data_points: chart.data_points as i64,
                    timestamp,
                },
            )
        } else {
            Err(RowError::InvalidCount)
        },
    }
}

/// The round that a row stands for, given what its instant was read as.
pub open spec fn round_of_row(id: Seq<char>, instant: Option<i64>, metrics_count: i64) -> Result<
    (Seq<char>, i64, usize),
    RowError,
> {
    match instant {
        None => Err(RowError::InvalidTimestamp),
        Some(timestamp) => if 0 <= metrics_count <= usize::MAX {
            Ok((id, timestamp, metrics_count as usize))
        } else {
            Err(RowError::InvalidCount)
        },
    }
}

/// A count that the database holds, as a length.
pub fn count_from_row(count: i64) -> (length: Option<usize>)
    ensures
        length == (if 0 <= count <= usize::MAX {
            Some(count as usize)
        } else {
            None
        }),
{
    if count < 0 {
        None
    } else if count as u64 > usize::MAX as u64 {
        None
    } else {
        Some(count as usize)
    }
}

impl Chart {
    /// The chart that a row stands for, given what its encoding and its
    /// instant were read as.
    pub fn from_parts(row: ChartRow, chart_type: Option<ChartType>, instant: Option<i64>) -> (chart:
        Result<Chart, RowError>)
        ensures
            match chart {
                Ok(c) => chart_of_row(row@, chart_type, instant) == Ok::<ChartModel, RowError>(c@),
                Err(e) => chart_of_row(row@, chart_type, instant) == Err::<ChartModel, RowError>(e),
            },
    {
        let chart_type = match chart_type {
            Some(chart_type) => chart_type,
            None => {
                return Err(RowError::InvalidChartType);
            },
        };
        let timestamp = match instant {
            Some(timestamp) => timestamp,
            None => {
                return Err(RowError::InvalidTimestamp);
            },
        };
        let data_points = match count_from_row(row.data_points) {
            Some(data_points) => data_points,
            None => {
                return Err(RowError::InvalidCount);
            },
        };
        Ok(
            Chart {
                id: None,
                collection_round_id: row.collection_round_id,
                metric_name: row.metric_name,
                chart_type,
                chart_data: row.chart_data,
                data_points,
                timestamp,
            },
        )
    }

    /// Reads a chart from its row.
    ///
    /// The name of the encoding must be one of the two, the timestamp must be
    /// RFC 3339 text and the count must be a length.
    pub fn from_row(row: ChartRow) -> (chart: Result<Chart, RowError>)
        ensures
            match chart {
                Ok(c) => chart_of_row(
                    row@,
                    chart_type_named(row.chart_type@),
                    rfc3339_instant(row.timestamp@),
                ) == Ok::<ChartModel, RowError>(c@),
                Err(e) => chart_of_row(
                    row@,
                    chart_type_named(row.chart_type@),
                    rfc3339_instant(row.timestamp@),
                ) == Err::<ChartModel, RowError>(e),
            },
    {
        let chart_type = ChartType::from_str(row.chart_type.as_str());
        let instant = parse_rfc3339(row.timestamp.as_str());
        Chart::from_parts(row, chart_type, instant)
    }

    /// The row that stands for this chart, given the text of its instant.
    pub fn to_parts(&self, timestamp: Option<String>) -> (row: Result<ChartRow, RowError>)
        ensures
            match row {
                Ok(r) => row_of_chart(
                    self@,
                    match timestamp {
                        Some(text) => Some(text@),
                        None => None,
                    },
                ) == Ok::<ChartRowModel, RowError>(r@),
                Err(e) => row_of_chart(
                    self@,
                    match timestamp {
                        Some(text) => Some(text@),
                        None => None,
                    },
                ) == Err::<ChartRowModel, RowError>(e),
            },
    {
        let timestamp = match timestamp {
            Some(timestamp) => timestamp,
            None => {
                return Err(RowError::InvalidTimestamp);
            },
        };
        if self.data_points as u64 > 0x7fff_ffff_ffff_ffff {
            return Err(RowError::InvalidCount);
        }
        Ok(
            ChartRow {
                collection_round_id: self.collection_round_id.clone(),
                metric_name: self.metric_name.clone(),
                chart_type: String::from_str(self.chart_type.as_str()),
                chart_data: self.chart_data.clone(),
                data_points: self.data_points as i64,
                timestamp,
            },
        )
    }

    /// Writes this chart as a row.
    ///
    /// The instant must have an RFC 3339 form and the count must fit the
    /// database's integers.
    pub fn to_row(&self) -> (row: Result<ChartRow, RowError>)
        ensures
            match row {
                Ok(r) => row_of_chart(self@, rfc3339_text(self.timestamp)) == Ok::<
                    ChartRowModel,
                    RowError,
                >(r@),
                Err(e) => row_of_chart(self@, rfc3339_text(self.timestamp)) == Err::<
                    ChartRowModel,
                    RowError,
                >(e),
            },
    {
        self.to_parts(format_rfc3339(self.timestamp))
    }
}

impl CollectionRound {
    /// The round that a row stands for, given what its instant was read as.
    pub fn from_parts(row: RoundRow, instant: Option<i64>) -> (round: Result<
        CollectionRound,
        RowError,
    >)
        ensures
            match round {
                Ok(r) => round_of_row(row.id@, instant, row.metrics_count) == Ok::<
                    (Seq<char>, i64, usize),
                    RowError,
                >((r.id@, r.timestamp, r.metrics_count)),
                Err(e) => round_of_row(row.id@, instant, row.metrics_count) == Err::<
                    (Seq<char>, i64, usize),
                    RowError,
                >(e),
            },
    {
        let timestamp = match instant {
            Some(timestamp) => timestamp,
            None => {
                return Err(RowError::InvalidTimestamp);
            },
        };
        let metrics_count = match count_from_row(row.metrics_count) {
            Some(metrics_count) => metrics_count,
            None => {
                return Err(RowError::InvalidCount);
            },
        };
        Ok(CollectionRound { id: row.id, timestamp, metrics_count })
    }

    /// Reads a round from its row.
    ///
    /// The timestamp must be RFC 3339 text and the count must be a length.
    pub fn from_row(row: RoundRow) -> (round: Result<CollectionRound, RowError>)
        ensures
            match round {
                Ok(r) => round_of_row(
                    row.id@,
                    rfc3339_instant(row.timestamp@),
                    row.metrics_count,
                ) == Ok::<(Seq<char>, i64, usize), RowError>((r.id@, r.timestamp, r.metrics_count)),
                Err(e) => round_of_row(
                    row.id@,
                    rfc3339_instant(row.timestamp@),
                    row.metrics_count,
                ) == Err::<(Seq<char>, i64, usize), RowError>(e),
            },
    {
        let instant = parse_rfc3339(row.timestamp.as_str());
        CollectionRound::from_parts(row, instant)
    }

    /// The row that stands for this round, given the text of its instant.
    pub fn to_parts(&self, timestamp: Option<String>) -> (row: Result<RoundRow, RowError>)
        ensures
            match row {
                Ok(r) => timestamp is Some && self.metrics_count <= i64::MAX && r.id@ == self.id@
                    && r.timestamp@ == timestamp->Some_0@ && r.metrics_count == self.metrics_count,
                Err(RowError::InvalidTimestamp) => timestamp is None,
                Err(RowError::InvalidCount) => timestamp is Some && self.metrics_count > i64::MAX,
                Err(RowError::InvalidChartType) => false,
            },
    {
        let timestamp = match timestamp {
            Some(timestamp) => timestamp,
            None => {
                return Err(RowError::InvalidTimestamp);
            },
        };
        if self.metrics_count as u64 > 0x7fff_ffff_ffff_ffff {
            return Err(RowError::InvalidCount);
        }
        Ok(RoundRow { id: self.id.clone(), timestamp, metrics_count: self.metrics_count as i64 })
    }

    /// Writes this round as a row.
    ///
    /// The instant must have an RFC 3339 form and the count must fit the
    /// database's integers.
    pub fn to_row(&self) -> (row: Result<RoundRow, RowError>)
        ensures
            match row {
                Ok(r) => rfc3339_text(self.timestamp) == Some(r.timestamp@) && self.metrics_count
                    <= i64::MAX && r.id@ == self.id@ && r.metrics_count == self.metrics_count,
                Err(RowError::InvalidTimestamp) => rfc3339_text(self.timestamp) is None,
                Err(RowError::InvalidCount) => rfc3339_text(self.timestamp) is Some
                    && self.metrics_count > i64::MAX,
                Err(RowError::InvalidChartType) => false,
            },
    {
        self.to_parts(format_rfc3339(self.timestamp))
    }
}

} // verus!
