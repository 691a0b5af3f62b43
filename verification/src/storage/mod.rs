//! What the store keeps: collection rounds, charts and their encodings.

use vstd::prelude::*;
use crate::text::same_text;

pub mod sqlite;
pub mod encoding;
pub mod generation;
pub mod cache;
pub mod recent;
pub mod rows;
pub mod query;
pub mod aggregations;

pub use crate::storage::sqlite::{SqliteStorage, StorageError, StoredMetric};

verus! {

/// One sampling pass: every sample belongs to exactly one round.
#[derive(Debug, PartialEq, Eq)]
pub struct CollectionRound {
    pub id: String,
    /// When the round was taken, in milliseconds since the epoch.
    pub timestamp: i64,
    pub metrics_count: usize,
}

/// Figures about the whole store.
#[derive(Debug, Clone, PartialEq, Eq)]
pub struct StorageStats {
    pub total_metrics: i64,
    pub total_collection_rounds: i64,
    pub latest_collection: Option<CollectionRound>,
    pub database_size_bytes: Option<u64>,
}

/// The two visual encodings of a utilization series.
#[derive(Debug, Clone, Copy, PartialEq, Eq, Structural)]
pub enum ChartType {
    Bar,
    Braille,
}

/// One encoded series, as kept by the chart cache.
#[derive(Debug, PartialEq, Eq)]
pub struct Chart {
    pub id: Option<i64>,
    pub collection_round_id: String,
    pub metric_name: String,
    pub chart_type: ChartType,
    pub chart_data: String,
    pub data_points: usize,
    /// When the chart was generated, in milliseconds since the epoch.
    pub timestamp: i64,
}

/// A chart with every text as a sequence of characters.
pub struct ChartModel {
    pub id: Option<i64>,
    pub collection_round_id: Seq<char>,
    pub metric_name: Seq<char>,
    pub chart_type: ChartType,
    pub chart_data: Seq<char>,
    pub data_points: usize,
    pub timestamp: i64,
}

impl View for Chart {
    type V = ChartModel;

    open spec fn view(&self) -> ChartModel {
        ChartModel {
            id: self.id,
            collection_round_id: self.collection_round_id@,
            metric_name: self.metric_name@,
            chart_type: self.chart_type,
            chart_data: self.chart_data@,
            data_points: self.data_points,
            timestamp: self.timestamp,
        }
    }
}

/// The models of a list of charts.
pub open spec fn chart_models(charts: Seq<Chart>) -> Seq<ChartModel> {
    Seq::new(charts.len(), |i: int| charts[i]@)
}

/// Why an encoder produced no chart.
#[derive(Debug, Clone, Copy, PartialEq, Eq, Structural)]
pub enum ChartError {
    /// The series is empty, so it has no average to annotate.
    NoData,
}

/// The name under which an encoding is stored.
pub open spec fn chart_type_name(t: ChartType) -> Seq<char> {
    match t {
        ChartType::Bar => "bar"@,
        ChartType::Braille => "braille"@,
    }
}

/// The encoding that a stored name stands for, if any.
pub open spec fn chart_type_named(name: Seq<char>) -> Option<ChartType> {
    if name == "bar"@ {
        Some(ChartType::Bar)
    } else if name == "braille"@ {
        Some(ChartType::Braille)
    } else {
        None
    }
}

impl ChartType {
    /// The name under which this encoding is stored.
    pub fn as_str(&self) -> (name: &'static str)
        ensures
            name@ == chart_type_name(*self),
    {
        match self {
            ChartType::Bar => "bar",
            ChartType::Braille => "braille",
        }
    }

    /// The encoding stored under `s`; `None` for any other text.
    pub fn from_str(s: &str) -> (t: Option<Self>)
        ensures
            t == chart_type_named(s@),
    {
        if same_text(s, "bar") {
            Some(ChartType::Bar)
        } else if same_text(s, "braille") {
            Some(ChartType::Braille)
        } else {
            None
        }
    }
}

/// Every encoding is found again under its own name.
pub proof fn lemma_chart_type_name_round_trip(t: ChartType)
    ensures
        chart_type_named(chart_type_name(t)) == Some(t),
{
    reveal_strlit("bar");
    reveal_strlit("braille");
    assert("bar"@.len() != "braille"@.len());
}

impl Clone for CollectionRound {
    fn clone(&self) -> (copy: Self)
        ensures
            copy == *self,
    {
        CollectionRound {
            id: self.id.clone(),
            timestamp: self.timestamp,
            metrics_count: self.metrics_count,
        }
    }
}

impl Clone for Chart {
    fn clone(&self) -> (copy: Self)
        ensures
            copy == *self,
    {
        Chart {
            id: self.id,
            collection_round_id: self.collection_round_id.clone(),
            metric_name: self.metric_name.clone(),
            chart_type: self.chart_type,
            chart_data: self.chart_data.clone(),
            data_points: self.data_points,
            timestamp: self.timestamp,
        }
    }
}

} // verus!
