//! The tick counters of a batch of samples, gathered by core.
//!
//! A tick sample names its core in the tag `core_id`; one without the tag
//! belongs to the core called `unknown`. Each core gets one line with the
//! latest value of each of its four counters. The lines are ordered by the
//! number that the name of the core denotes, names that denote none counting
//! as 0; cores of one number keep the order in which the batch first names
//! them.
//!
//! The figures of the graphics processors are gathered likewise, by the tag
//! `gpu_name`, in the order in which the batch first names the processors.

use vstd::prelude::*;
use vstd::string::*;
use crate::collectors::types::{
    core_type_named, models, CoreType, Metric, MetricModel, MetricValue,
};
use crate::decimal::{decimal_value_within, parse_i32};
use crate::order::{stable_order, stable_order_of};
use crate::storage::aggregations::rates::{counter_named, TickCounter};
use crate::text::{find_value, same_text, value_of};

verus! {

/// The four counters of one core.
#[derive(Debug, Clone, PartialEq, Eq)]
pub struct CoreTicks {
    /// The core as the samples name it.
    pub core_id: String,
    pub core_type: CoreType,
    pub user_ticks: i64,
    pub system_ticks: i64,
    pub nice_ticks: i64,
    pub idle_ticks: i64,
}

/// The four counters of one core, with the name of the core as a sequence of
/// characters.
pub struct CoreTicksModel {
    pub core_id: Seq<char>,
    pub core_type: CoreType,
    pub user_ticks: i64,
    pub system_ticks: i64,
    pub nice_ticks: i64,
    pub idle_ticks: i64,
}

impl View for CoreTicks {
    type V = CoreTicksModel;

    open spec fn view(&self) -> CoreTicksModel {
        CoreTicksModel {
            core_id: self.core_id@,
            core_type: self.core_type,
            user_ticks: self.user_ticks,
            system_ticks: self.system_ticks,
            nice_ticks: self.nice_ticks,
            idle_ticks: self.idle_ticks,
        }
    }
}

/// The models of a list of lines.
pub open spec fn line_models(lines: Seq<CoreTicks>) -> Seq<CoreTicksModel> {
    Seq::new(lines.len(), |i: int| lines[i]@)
}

/// The sum of the four counters of a line.
pub open spec fn total_ticks(line: CoreTicksModel) -> int {
    line.user_ticks + line.system_ticks + line.nice_ticks + line.idle_ticks
}

/// The core that a sample names: its tag `core_id`, or `unknown`.
pub open spec fn core_name(metric: Metric) -> Seq<char> {
    match value_of(metric.metadata@, "core_id"@) {
        Some(name) => name,
        None => "unknown"@,
    }
}

/// Whether a sample is a tick sample of the named core.
pub open spec fn is_tick_of(metric: Metric, core: Seq<char>) -> bool {
    counter_named(metric.name@) is Some && core_name(metric) == core
}

/// The kind of core that a sample names in its tag `core_type`.
pub open spec fn named_core_type(metric: Metric) -> CoreType {
    match value_of(metric.metadata@, "core_type"@) {
        Some(name) => core_type_named(name),
        None => CoreType::Unknown,
    }
}

/// The cores that the tick samples name, each once, in the order in which
/// the batch first names them.
pub open spec fn named_cores(metrics: Seq<Metric>) -> Seq<Seq<char>>
    decreases metrics.len(),
{
    if metrics.len() == 0 {
        Seq::empty()
    } else {
        let earlier = named_cores(metrics.drop_last());
        if counter_named(metrics.last().name@) is Some && !earlier.contains(
            core_name(metrics.last()),
        ) {
            earlier.push(core_name(metrics.last()))
        } else {
            earlier
        }
    }
}

/// A line before any sample is read.
pub open spec fn blank_line(core: Seq<char>) -> CoreTicksModel {
    CoreTicksModel {
        core_id: core,
        core_type: CoreType::Unknown,
        user_ticks: 0,
        system_ticks: 0,
        nice_ticks: 0,
        idle_ticks: 0,
    }
}

/// A line after one more tick sample of its core is read: an integer value
/// sets the counter that the sample is named after, and the sample's kind of
/// core becomes the line's.
pub open spec fn with_sample(line: CoreTicksModel, metric: Metric) -> CoreTicksModel {
    let kind = named_core_type(metric);
    match metric.value {
        MetricValue::Integer(ticks) => match counter_named(metric.name@) {
            Some(TickCounter::User) => CoreTicksModel {
                user_ticks: ticks,
                core_type: kind,
                ..line
            },
            Some(TickCounter::System) => CoreTicksModel {
                system_ticks: ticks,
                core_type: kind,
                ..line
            },
            Some(TickCounter::Nice) => CoreTicksModel {
                nice_ticks: ticks,
                core_type: kind,
                ..line
            },
            Some(TickCounter::Idle) => CoreTicksModel {
                idle_ticks: ticks,
                core_type: kind,
                ..line
            },
            None => CoreTicksModel { core_type: kind, ..line },
        },
        _ => CoreTicksModel { core_type: kind, ..line },
    }
}

/// The line of a core: its tick samples read in the order of the batch.
pub open spec fn line_of(metrics: Seq<Metric>, core: Seq<char>) -> CoreTicksModel
    decreases metrics.len(),
{
    if metrics.len() == 0 {
        blank_line(core)
    } else if is_tick_of(metrics.last(), core) {
        with_sample(line_of(metrics.drop_last(), core), metrics.last())
    } else {
        line_of(metrics.drop_last(), core)
    }
}

/// The number that the name of a core denotes, 0 if it denotes none that
/// fits in 32 bits.
pub open spec fn core_number(core: Seq<char>) -> i64 {
    match decimal_value_within(core, i32::MIN as int, i32::MAX as int) {
        Some(v) => v as i64,
        None => 0,
    }
}

/// The numbers of a list of cores.
pub open spec fn core_numbers(cores: Seq<Seq<char>>) -> Seq<i64> {
    Seq::new(cores.len(), |i: int| core_number(cores[i]))
}

/// The lines of all cores that the tick samples name, in ascending order of
/// the cores' numbers.
pub open spec fn core_lines(metrics: Seq<Metric>) -> Seq<CoreTicksModel> {
    let cores = named_cores(metrics);
    let order = stable_order(core_numbers(cores));
    Seq::new(cores.len(), |j: int| line_of(metrics, cores[order[j] as int]))
}

/// How many of the twenty cells of a gauge are filled at a percentage: one
/// for every full five percent, none below zero.
pub open spec fn filled_cells(percentage: i32) -> int {
    if percentage < 0 {
        0
    } else {
        percentage as int / 5
    }
}

/// A gauge of twenty cells, the filled ones first.
pub open spec fn gauge_text(percentage: i32) -> Seq<char> {
    Seq::new(
        20,
        |i: int|
            if i < filled_cells(percentage) {
                '█'
            } else {
                '░'
            },
    )
}

/// Draws a gauge of twenty cells for a percentage.
///
/// The percentage must leave room in the gauge: from 105 on there would be
/// more filled cells than cells.
pub fn utilization_gauge(percentage: i32) -> (gauge: String)
    requires
        percentage < 105,
    ensures
        gauge@ == gauge_text(percentage),
{
    let filled: i32 = if percentage < 0 {
        0
    } else {
        percentage / 5
    };
    let mut gauge = String::new();
    let mut i: i32 = 0;
    while i < 20
        invariant
            0 <= i <= 20,
            filled == filled_cells(percentage),
            gauge@ =~= gauge_text(percentage).take(i as int),
        decreases 20 - i,
    {
        if i < filled {
            gauge.push('█');
        } else {
            gauge.push('░');
        }
        i = i + 1;
    }
    assert(gauge_text(percentage).take(20) =~= gauge_text(percentage));
    gauge
}

/// The views of a list of names.
pub open spec fn name_views(names: Seq<String>) -> Seq<Seq<char>> {
    Seq::new(names.len(), |i: int| names[i]@)
}

/// The core that a sample names.
pub fn core_name_of(metric: &Metric) -> (name: String)
    ensures
        name@ == core_name(*metric),
{
    match find_value(&metric.metadata, "core_id") {
        Some(name) => name.clone(),
        None => String::from_str("unknown"),
    }
}

/// The line of one core.
pub fn tick_line(metrics: &Vec<Metric>, core: &String) -> (line: CoreTicks)
    ensures
        line@ == line_of(metrics@, core@),
{
    let mut line = CoreTicks {
        core_id: core.clone(),
        core_type: CoreType::Unknown,
        user_ticks: 0,
        system_ticks: 0,
        nice_ticks: 0,
        idle_ticks: 0,
    };
    let mut i: usize = 0;
    while i < metrics.len()
        invariant
            i <= metrics@.len(),
            line@ == line_of(metrics@.take(i as int), core@),
        decreases metrics@.len() - i,
    {
        let metric = &metrics[i];
        assert(metrics@.take(i + 1).drop_last() =~= metrics@.take(i as int));
        match TickCounter::from_name(metric.name.as_str()) {
            Some(counter) => {
                let name = core_name_of(metric);
                if same_text(name.as_str(), core.as_str()) {
                    line.core_type = match find_value(&metric.metadata, "core_type") {
                        Some(kind) => CoreType::from_str(kind.as_str()),
                        None => CoreType::Unknown,
                    };
                    match &metric.value {
                        MetricValue::Integer(ticks) => match counter {
                            TickCounter::User => {
                                line.user_ticks = *ticks;
                            },
                            TickCounter::System => {
                                line.system_ticks = *ticks;
                            },
                            TickCounter::Nice => {
                                line.nice_ticks = *ticks;
                            },
                            TickCounter::Idle => {
                                line.idle_ticks = *ticks;
                            },
                        },
                        _ => {},
                    }
                }
            },
            None => {},
        }
        i = i + 1;
    }
    assert(metrics@.take(metrics@.len() as int) =~= metrics@);
    line
}

/// The sum of the four counters of a line.
pub fn line_total(line: &CoreTicks) -> (total: i128)
    ensures
        total == total_ticks(line@),
{
    line.user_ticks as i128 + line.system_ticks as i128 + line.nice_ticks as i128
        + line.idle_ticks as i128
}

/// The tick counters of a batch of samples, one line per core, in ascending
/// order of the cores' numbers.
pub fn core_ticks(metrics: &Vec<Metric>) -> (lines: Vec<CoreTicks>)
    ensures
        line_models(lines@) == core_lines(metrics@),
{
    let n = metrics.len();
    let mut cores: Vec<String> = Vec::new();
    let mut numbers: Vec<i64> = Vec::new();
    let mut i: usize = 0;
    assert(name_views(cores@) =~= Seq::empty());
    while i < n
        invariant
            i <= n,
            n == metrics@.len(),
            name_views(cores@) == named_cores(metrics@.take(i as int)),
            numbers@ =~= core_numbers(name_views(cores@)),
        decreases n - i,
    {
        let metric = &metrics[i];
        assert(metrics@.take(i + 1).drop_last() =~= metrics@.take(i as int));
        if TickCounter::from_name(metric.name.as_str()).is_some() {
            let name = core_name_of(metric);
            let mut known = false;
            let mut k: usize = 0;
            while k < cores.len()
                invariant
                    k <= cores@.len(),
                    known == exists|j: int| 0 <= j < k && cores@[j]@ == name@,
                decreases cores@.len() - k,
            {
                if same_text(cores[k].as_str(), name.as_str()) {
                    known = true;
                }
                k = k + 1;
            }
            proof {
                let names = name_views(cores@);
                if known {
                    let j = choose|j: int| 0 <= j < cores@.len() && cores@[j]@ == name@;
                    assert(names[j] == name@);
                } else if names.contains(name@) {
                    let j = choose|j: int| 0 <= j < names.len() && names[j] == name@;
                    assert(cores@[j]@ == name@);
                }
            }
            if !known {
                let number: i64 = match parse_i32(name.as_str()) {
                    Some(v) => v as i64,
                    None => 0,
                };
                let ghost before = cores@;
                cores.push(name);
                numbers.push(number);
                assert(name_views(cores@) =~= name_views(before).push(name@));
            }
        }
        i = i + 1;
    }
    assert(metrics@.take(n as int) =~= metrics@);
    let order = stable_order_of(&numbers);
    let m = cores.len();
    let mut lines: Vec<CoreTicks> = Vec::new();
    let mut j: usize = 0;
    assert(line_models(lines@) =~= core_lines(metrics@).take(0));
    while j < m
        invariant
            j <= m,
            m == cores@.len(),
            name_views(cores@) == named_cores(metrics@),
            order@ == stable_order(core_numbers(name_views(cores@))),
            order@.len() == m,
            forall|k: int| 0 <= k < order@.len() ==> (#[trigger] order@[k]) < m,
            line_models(lines@) == core_lines(metrics@).take(j as int),
        decreases m - j,
    {
        let ghost before = lines@;
        let line = tick_line(metrics, &cores[order[j]]);
        proof {
            assert(name_views(cores@)[order@[j as int] as int] == cores@[order@[j as int] as int]@);
            assert(line@ == core_lines(metrics@)[j as int]);
        }
        lines.push(line);
        assert(line_models(lines@) =~= line_models(before).push(line@));
        assert(core_lines(metrics@).take(j + 1) =~= core_lines(metrics@).take(j as int).push(
            core_lines(metrics@)[j as int],
        ));
        j = j + 1;
    }
    assert(core_lines(metrics@).take(m as int) =~= core_lines(metrics@));
    lines
}

/// What a batch of samples says about one graphics processor.
#[derive(Debug, Clone, PartialEq, Eq)]
pub struct GpuFigures {
    /// The processor as the samples name it.
    pub name: String,
    /// The latest utilization, a double held as its bits.
    pub utilization: Option<u64>,
    /// The samples of the processor that are no utilization.
    pub others: Vec<Metric>,
}

/// What a batch of samples says about one graphics processor, with every
/// text as a sequence of characters.
pub struct GpuFiguresModel {
    pub name: Seq<char>,
    pub utilization: Option<u64>,
    pub others: Seq<MetricModel>,
}

impl View for GpuFigures {
    type V = GpuFiguresModel;

    open spec fn view(&self) -> GpuFiguresModel {
        GpuFiguresModel {
            name: self.name@,
            utilization: self.utilization,
            others: models(self.others@),
        }
    }
}

/// The models of a list of figures.
pub open spec fn figure_models(figures: Seq<GpuFigures>) -> Seq<GpuFiguresModel> {
    Seq::new(figures.len(), |i: int| figures[i]@)
}

/// The processor that a sample names: its tag `gpu_name`, or `Unknown GPU`.
pub open spec fn gpu_name(metric: Metric) -> Seq<char> {
    match value_of(metric.metadata@, "gpu_name"@) {
        Some(name) => name,
        None => "Unknown GPU"@,
    }
}

/// The processors that the samples name, each once, in the order in which
/// the batch first names them.
pub open spec fn named_gpus(metrics: Seq<Metric>) -> Seq<Seq<char>>
    decreases metrics.len(),
{
    if metrics.len() == 0 {
        Seq::empty()
    } else {
        let earlier = named_gpus(metrics.drop_last());
        if earlier.contains(gpu_name(metrics.last())) {
            earlier
        } else {
            earlier.push(gpu_name(metrics.last()))
        }
    }
}

/// Whether a sample is a utilization.
pub open spec fn is_utilization(metric: Metric) -> bool {
    metric.name@ == "gpu_utilization"@
}

/// The latest utilization of a processor: that of its last utilization
/// sample whose value is a double.
pub open spec fn latest_utilization(metrics: Seq<Metric>, gpu: Seq<char>) -> Option<u64>
    decreases metrics.len(),
{
    if metrics.len() == 0 {
        None
    } else {
        let last = metrics.last();
        if gpu_name(last) == gpu && is_utilization(last) {
            match last.value {
                MetricValue::Float(bits) => Some(bits),
                _ => latest_utilization(metrics.drop_last(), gpu),
            }
        } else {
            latest_utilization(metrics.drop_last(), gpu)
        }
    }
}

/// The samples of a processor that are no utilization, in the order of the
/// batch.
pub open spec fn other_samples(metrics: Seq<Metric>, gpu: Seq<char>) -> Seq<MetricModel>
    decreases metrics.len(),
{
    if metrics.len() == 0 {
        Seq::empty()
    } else {
        let earlier = other_samples(metrics.drop_last(), gpu);
        if gpu_name(metrics.last()) == gpu && !is_utilization(metrics.last()) {
            earlier.push(metrics.last()@)
        } else {
            earlier
        }
    }
}

/// The figures of all processors that the samples name.
pub open spec fn gpu_figures_of(metrics: Seq<Metric>) -> Seq<GpuFiguresModel> {
    let gpus = named_gpus(metrics);
    Seq::new(
        gpus.len(),
        |i: int|
            GpuFiguresModel {
                name: gpus[i],
                utilization: latest_utilization(metrics, gpus[i]),
                others: other_samples(metrics, gpus[i]),
            },
    )
}

/// The processor that a sample names.
pub fn gpu_name_of(metric: &Metric) -> (name: String)
    ensures
        name@ == gpu_name(*metric),
{
    match find_value(&metric.metadata, "gpu_name") {
        Some(name) => name.clone(),
        None => String::from_str("Unknown GPU"),
    }
}

/// The figures of one processor.
pub fn figures_of_gpu(metrics: &Vec<Metric>, gpu: &String) -> (figures: GpuFigures)
    ensures
        figures@ == (GpuFiguresModel {
            name: gpu@,
            utilization: latest_utilization(metrics@, gpu@),
            others: other_samples(metrics@, gpu@),
        }),
{
    let mut utilization: Option<u64> = None;
    let mut others: Vec<Metric> = Vec::new();
    let mut i: usize = 0;
    assert(models(others@) =~= Seq::empty());
    while i < metrics.len()
        invariant
            i <= metrics@.len(),
            utilization == latest_utilization(metrics@.take(i as int), gpu@),
            models(others@) == other_samples(metrics@.take(i as int), gpu@),
        decreases metrics@.len() - i,
    {
        let metric = &metrics[i];
        assert(metrics@.take(i + 1).drop_last() =~= metrics@.take(i as int));
        let name = gpu_name_of(metric);
        if same_text(name.as_str(), gpu.as_str()) {
            if same_text(metric.name.as_str(), "gpu_utilization") {
                match &metric.value {
                    MetricValue::Float(bits) => {
                        utilization = Some(*bits);
                    },
                    _ => {},
                }
            } else {
                let ghost before = others@;
                let copy = metric.clone();
                others.push(copy);
                assert(models(others@) =~= models(before).push(metric@));
            }
        }
        i = i + 1;
    }
    assert(metrics@.take(metrics@.len() as int) =~= metrics@);
    GpuFigures { name: gpu.clone(), utilization, others }
}

/// The figures of the graphics processors in a batch of samples, one entry
/// per processor.
pub fn gpu_figures(metrics: &Vec<Metric>) -> (figures: Vec<GpuFigures>)
    ensures
        figure_models(figures@) == gpu_figures_of(metrics@),
{
    let n = metrics.len();
    let mut gpus: Vec<String> = Vec::new();
    let mut i: usize = 0;
    assert(name_views(gpus@) =~= Seq::empty());
    while i < n
        invariant
            i <= n,
            n == metrics@.len(),
            name_views(gpus@) == named_gpus(metrics@.take(i as int)),
        decreases n - i,
    {
        let metric = &metrics[i];
        assert(metrics@.take(i + 1).drop_last() =~= metrics@.take(i as int));
        let name = gpu_name_of(metric);
        let mut known = false;
        let mut k: usize = 0;
        while k < gpus.len()
            invariant
                k <= gpus@.len(),
                known == exists|j: int| 0 <= j < k && gpus@[j]@ == name@,
            decreases gpus@.len() - k,
        {
            if same_text(gpus[k].as_str(), name.as_str()) {
                known = true;
            }
            k = k + 1;
        }
        proof {
            let names = name_views(gpus@);
            if known {
                let j = choose|j: int| 0 <= j < gpus@.len() && gpus@[j]@ == name@;
                assert(names[j] == name@);
            } else if names.contains(name@) {
                let j = choose|j: int| 0 <= j < names.len() && names[j] == name@;
                assert(gpus@[j]@ == name@);
            }
        }
        if !known {
            let ghost before = gpus@;
            gpus.push(name);
            assert(name_views(gpus@) =~= name_views(before).push(name@));
        }
        i = i + 1;
    }
    assert(metrics@.take(n as int) =~= metrics@);
    let m = gpus.len();
    let mut figures: Vec<GpuFigures> = Vec::new();
    let mut j: usize = 0;
    assert(figure_models(figures@) =~= gpu_figures_of(metrics@).take(0));
    while j < m
        invariant
            j <= m,
            m == gpus@.len(),
            name_views(gpus@) == named_gpus(metrics@),
            figure_models(figures@) == gpu_figures_of(metrics@).take(j as int),
        decreases m - j,
    {
        let ghost before = figures@;
        let entry = figures_of_gpu(metrics, &gpus[j]);
        proof {
            assert(name_views(gpus@)[j as int] == gpus@[j as int]@);
            assert(entry@ == gpu_figures_of(metrics@)[j as int]);
        }
        figures.push(entry);
        assert(figure_models(figures@) =~= figure_models(before).push(entry@));
        assert(gpu_figures_of(metrics@).take(j + 1) =~= gpu_figures_of(metrics@).take(
            j as int,
        ).push(gpu_figures_of(metrics@)[j as int]));
        j = j + 1;
    }
    assert(gpu_figures_of(metrics@).take(m as int) =~= gpu_figures_of(metrics@));
    figures
}

} // verus!
