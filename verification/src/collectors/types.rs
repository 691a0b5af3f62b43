//! Samples as the collectors hand them over.

use vstd::prelude::*;
use vstd::string::*;
use crate::clock::now_millis;
use crate::decimal::{append_decimal, decimal_text};
use crate::text::same_text;

verus! {

/// The kind of a core.
#[derive(Debug, Clone, Copy, PartialEq, Eq, Structural)]
pub enum CoreType {
    Efficiency,
    Performance,
    /// The sample does not say, or says something else.
    Unknown,
}

/// The label of a core type.
pub open spec fn core_type_name(core_type: CoreType) -> Seq<char> {
    match core_type {
        CoreType::Efficiency => "efficiency"@,
        CoreType::Performance => "performance"@,
        CoreType::Unknown => "unknown"@,
    }
}

/// The core type that a label stands for; any label but the two known ones
/// is unknown.
pub open spec fn core_type_named(name: Seq<char>) -> CoreType {
    if name == "efficiency"@ {
        CoreType::Efficiency
    } else if name == "performance"@ {
        CoreType::Performance
    } else {
        CoreType::Unknown
    }
}

impl CoreType {
    /// The label of this core type.
    pub fn as_str(&self) -> (name: &'static str)
        ensures
            name@ == core_type_name(*self),
    {
        match self {
            CoreType::Efficiency => "efficiency",
            CoreType::Performance => "performance",
            CoreType::Unknown => "unknown",
        }
    }

    /// The core type that `name` stands for.
    pub fn from_str(name: &str) -> (core_type: CoreType)
        ensures
            core_type == core_type_named(name@),
    {
        if same_text(name, "efficiency") {
            CoreType::Efficiency
        } else if same_text(name, "performance") {
            CoreType::Performance
        } else {
            CoreType::Unknown
        }
    }
}

/// The value of a sample.
#[derive(Debug, PartialEq, Eq)]
pub enum MetricValue {
    Integer(i64),
    /// A double-precision number, held as its IEEE 754 bit pattern.
    Float(u64),
    String(String),
    Boolean(bool),
}

/// One sample: a named value, the instant it was taken and free-form tags.
#[derive(Debug, PartialEq, Eq)]
pub struct Metric {
    pub name: String,
    pub value: MetricValue,
    /// Milliseconds since the epoch.
    pub timestamp: i64,
    /// Tags as pairs of key and value; a later pair overrides an earlier one
    /// with the same key.
    pub metadata: Vec<(String, String)>,
}

/// A value, with text as a sequence of characters.
pub enum ValueModel {
    Integer(i64),
    Float(u64),
    Text(Seq<char>),
    Boolean(bool),
}

/// A sample, with every text as a sequence of characters.
pub struct MetricModel {
    pub name: Seq<char>,
    pub value: ValueModel,
    pub timestamp: i64,
    pub metadata: Seq<(Seq<char>, Seq<char>)>,
}

impl View for MetricValue {
    type V = ValueModel;

    open spec fn view(&self) -> ValueModel {
        match self {
            MetricValue::Integer(v) => ValueModel::Integer(*v),
            MetricValue::Float(bits) => ValueModel::Float(*bits),
            MetricValue::String(text) => ValueModel::Text(text@),
            MetricValue::Boolean(b) => ValueModel::Boolean(*b),
        }
    }
}

/// The tags with every text as a sequence of characters.
pub open spec fn tags_model(metadata: Seq<(String, String)>) -> Seq<(Seq<char>, Seq<char>)> {
    Seq::new(metadata.len(), |i: int| (metadata[i].0@, metadata[i].1@))
}

impl View for Metric {
    type V = MetricModel;

    open spec fn view(&self) -> MetricModel {
        MetricModel {
            name: self.name@,
            value: self.value@,
            timestamp: self.timestamp,
            metadata: tags_model(self.metadata@),
        }
    }
}

/// The models of a list of samples.
pub open spec fn models(metrics: Seq<Metric>) -> Seq<MetricModel> {
    Seq::new(metrics.len(), |i: int| metrics[i]@)
}

/// A sample without tags whose value is text.
pub open spec fn text_sample(name: Seq<char>, value: Seq<char>, timestamp: i64) -> MetricModel {
    MetricModel { name, value: ValueModel::Text(value), timestamp, metadata: Seq::empty() }
}

/// The name of the type of a value, as the store writes it.
pub open spec fn value_type_name(value: MetricValue) -> Seq<char> {
    match value {
        MetricValue::Integer(_) => "integer"@,
        MetricValue::Float(_) => "float"@,
        MetricValue::String(_) => "string"@,
        MetricValue::Boolean(_) => "boolean"@,
    }
}

/// The value that the columns of a stored sample hold: of the four columns
/// the one that the name of the type points to, if that column is filled.
pub open spec fn value_of_columns(
    kind_name: Seq<char>,
    integer: Option<i64>,
    float_bits: Option<u64>,
    text: Option<String>,
    boolean: Option<bool>,
) -> Option<MetricValue> {
    if kind_name == "integer"@ {
        match integer {
            Some(v) => Some(MetricValue::Integer(v)),
            None => None,
        }
    } else if kind_name == "float"@ {
        match float_bits {
            Some(bits) => Some(MetricValue::Float(bits)),
            None => None,
        }
    } else if kind_name == "string"@ {
        match text {
            Some(t) => Some(MetricValue::String(t)),
            None => None,
        }
    } else if kind_name == "boolean"@ {
        match boolean {
            Some(b) => Some(MetricValue::Boolean(b)),
            None => None,
        }
    } else {
        None
    }
}

impl MetricValue {
    /// The name of the type of this value, as the store writes it.
    pub fn kind_name(&self) -> (name: &'static str)
        ensures
            name@ == value_type_name(*self),
    {
        match self {
            MetricValue::Integer(_) => "integer",
            MetricValue::Float(_) => "float",
            MetricValue::String(_) => "string",
            MetricValue::Boolean(_) => "boolean",
        }
    }

    /// Reads a value from the columns of a stored sample.
    pub fn from_columns(
        kind_name: &str,
        integer: Option<i64>,
        float_bits: Option<u64>,
        text: Option<String>,
        boolean: Option<bool>,
    ) -> (value: Option<MetricValue>)
        ensures
            value == value_of_columns(kind_name@, integer, float_bits, text, boolean),
    {
        if same_text(kind_name, "integer") {
            match integer {
                Some(v) => Some(MetricValue::Integer(v)),
                None => None,
            }
        } else if same_text(kind_name, "float") {
            match float_bits {
                Some(bits) => Some(MetricValue::Float(bits)),
                None => None,
            }
        } else if same_text(kind_name, "string") {
            match text {
                Some(t) => Some(MetricValue::String(t)),
                None => None,
            }
        } else if same_text(kind_name, "boolean") {
            match boolean {
                Some(b) => Some(MetricValue::Boolean(b)),
                None => None,
            }
        } else {
            None
        }
    }
}

impl Clone for MetricValue {
    fn clone(&self) -> (copy: Self)
        ensures
            copy == *self,
    {
        match self {
            MetricValue::Integer(v) => MetricValue::Integer(*v),
            MetricValue::Float(bits) => MetricValue::Float(*bits),
            MetricValue::String(text) => MetricValue::String(text.clone()),
            MetricValue::Boolean(b) => MetricValue::Boolean(*b),
        }
    }
}

impl Clone for Metric {
    fn clone(&self) -> (copy: Self)
        ensures
            copy@ == self@,
    {
        let mut metadata: Vec<(String, String)> = Vec::new();
        let mut i: usize = 0;
        while i < self.metadata.len()
            invariant
                i <= self.metadata@.len(),
                tags_model(metadata@) =~= tags_model(self.metadata@).take(i as int),
            decreases self.metadata@.len() - i,
        {
            let ghost before = metadata@;
            let key = self.metadata[i].0.clone();
            let value = self.metadata[i].1.clone();
            assert(key@ == self.metadata@[i as int].0@ && value@ == self.metadata@[i as int].1@);
            metadata.push((key, value));
            assert(tags_model(metadata@) =~= tags_model(before).push((key@, value@)));
            assert(tags_model(self.metadata@).take(i + 1) =~= tags_model(self.metadata@).take(
                i as int,
            ).push((key@, value@)));
            i = i + 1;
        }
        assert(tags_model(self.metadata@).take(self.metadata@.len() as int) =~= tags_model(
            self.metadata@,
        ));
        Metric {
            name: self.name.clone(),
            value: self.value.clone(),
            timestamp: self.timestamp,
            metadata,
        }
    }
}

impl Metric {
    /// A sample taken now.
    ///
    /// The clock decides the timestamp; the rest is as given.
    pub fn new(name: String, value: MetricValue, metadata: Vec<(String, String)>) -> (metric:
        Self)
        ensures
            metric.name == name,
            metric.value == value,
            metric.metadata == metadata,
    {
        Metric::at(name, value, now_millis(), metadata)
    }

    /// A sample taken at `timestamp`.
    pub fn at(name: String, value: MetricValue, timestamp: i64, metadata: Vec<(String, String)>)
        -> (metric: Self)
        ensures
            metric == (Metric { name, value, timestamp, metadata }),
    {
        Metric { name, value, timestamp, metadata }
    }

    /// A sample without tags whose value is the number `value` in decimal.
    pub fn counted(name: String, value: i128, timestamp: i64) -> (metric: Self)
        ensures
            metric@ == text_sample(name@, decimal_text(value as int), timestamp),
    {
        let mut text = String::new();
        append_decimal(&mut text, value);
        let metric = Metric {
            name,
            value: MetricValue::String(text),
            timestamp,
            metadata: Vec::new(),
        };
        assert(metric@.metadata =~= Seq::empty());
        assert(text@ =~= decimal_text(value as int));
        metric
    }
}

/// The text `prefix`, a number in decimal, `suffix`.
pub open spec fn numbered(prefix: Seq<char>, number: int, suffix: Seq<char>) -> Seq<char> {
    prefix + decimal_text(number) + suffix
}

/// Builds a name with a number in it.
pub fn numbered_name(prefix: &str, number: i128, suffix: &str) -> (name: String)
    ensures
        name@ == numbered(prefix@, number as int, suffix@),
{
    let mut name = String::from_str(prefix);
    append_decimal(&mut name, number);
    name.append(suffix);
    name
}

} // verus!
