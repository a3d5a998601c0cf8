//! Recording what components measure.

use crate::assoc_map::AssocMap;
use crate::text::decimal_string;
use crate::time::SimTime;
use metrics::{Key as MetricKey, Label};
use std::time::Duration;
use vstd::prelude::*;
use vstd::string::StringExecFns;

verus! {

broadcast use vstd::string::group_string_axioms;

/// What kind of metric.
#[derive(Debug, Clone, Copy, PartialEq, Eq, Structural)]
pub enum MetricType {
    /// It only grows.
    Counter,
    /// It goes up and down.
    Gauge,
    /// It is a distribution.
    Histogram,
}

/// What was measured.
#[derive(Debug, Clone, Copy, PartialEq, Eq)]
pub enum MetricNumber {
    /// A count.
    Count(u64),
    /// A floating-point number, as its bits.
    Bits(u64),
    /// A duration, which counts in milliseconds.
    Millis(Duration),
}

/// A measured value.
#[derive(Debug)]
pub struct MetricValue {
    pub key: String,
    pub metric_type: MetricType,
    pub value: MetricNumber,
    pub timestamp: SimTime,
    pub labels: Vec<(String, String)>,
}

#[verifier::ext_equal]
pub struct MetricView {
    pub key: Seq<char>,
    pub metric_type: MetricType,
    pub value: MetricNumber,
    pub timestamp: SimTime,
    pub labels: Seq<(Seq<char>, Seq<char>)>,
}

/// The views of labels.
pub open spec fn label_views(labels: Seq<(String, String)>) -> Seq<(Seq<char>, Seq<char>)> {
    labels.map_values(|l: (String, String)| (l.0@, l.1@))
}

impl View for MetricValue {
    type V = MetricView;

    open spec fn view(&self) -> MetricView {
        MetricView {
            key: self.key@,
            metric_type: self.metric_type,
            value: self.value,
            timestamp: self.timestamp,
            labels: label_views(self.labels@),
        }
    }
}

/// The views of metrics.
pub open spec fn metric_views(s: Seq<MetricValue>) -> Seq<MetricView> {
    s.map_values(|m: MetricValue| m@)
}

/// Emits metrics.
pub trait MetricEmitter {
    /// The current metrics.
    fn emit_metrics(&self, timestamp: SimTime) -> Vec<MetricValue>;

    /// The component that the metrics are labelled with.
    fn component_name(&self) -> String;
}

/// The map that labels stand for: the last value of a label counts.
pub open spec fn labels_as_map(labels: Seq<(Seq<char>, Seq<char>)>) -> Map<Seq<char>, Seq<char>>
    decreases labels.len(),
{
    if labels.len() == 0 {
        Map::empty()
    } else {
        labels_as_map(labels.drop_last()).insert(labels.last().0, labels.last().1)
    }
}

/// The view of a map of texts.
pub open spec fn text_map(m: Map<Seq<char>, String>) -> Map<Seq<char>, Seq<char>> {
    m.map_values(|s: String| s@)
}

/// Collects labels in a map.
fn collect_labels(labels: &Vec<(String, String)>) -> (map: AssocMap<String, String>)
    ensures
        map.wf(),
        text_map(map@) == labels_as_map(label_views(labels@)),
{
    let ghost views = label_views(labels@);
    let mut map: AssocMap<String, String> = AssocMap::new();
    let mut i: usize = 0;
    proof {
        assert(views.take(0) =~= Seq::empty());
        assert(text_map(map@) =~= Map::empty());
    }
    while i < labels.len()
        invariant
            i <= labels@.len(),
            views == label_views(labels@),
            map.wf(),
            text_map(map@) == labels_as_map(views.take(i as int)),
        decreases labels@.len() - i,
    {
        let ghost before = map@;
        proof {
            assert(views.take(i + 1).drop_last() =~= views.take(i as int));
            assert(views.take(i + 1).last() == (labels@[i as int].0@, labels@[i as int].1@));
        }
        let value = labels[i].1.clone();
        map.insert(labels[i].0.clone(), value);
        proof {
            assert(text_map(map@) =~= text_map(before).insert(
                labels@[i as int].0@,
                labels@[i as int].1@,
            ));
        }
        i = i + 1;
    }
    proof {
        assert(views.take(i as int) =~= views);
    }
    map
}

/// The type `Key` of the crate `metrics`, under which a metric is registered.
#[verifier::external_type_specification]
#[verifier::external_body]
pub struct ExMetricKey(MetricKey);

/// The name that a key holds, as `Key::name` gives it.
pub uninterp spec fn key_name(key: MetricKey) -> Seq<char>;

/// The labels that a key holds, in their order, as `Key::labels` gives them.
pub uninterp spec fn key_labels(key: MetricKey) -> Seq<(Seq<char>, Seq<char>)>;

/// Calls `Key::from_parts`, with a `Label` for each pair: the key holds the name and
/// the labels that it is made of, in their order.
#[verifier::external_body]
fn key_from_parts(name: String, labels: Vec<(String, String)>) -> (key: MetricKey)
    ensures
        key_name(key) == name@,
        key_labels(key) == label_views(labels@),
{
    let labels: Vec<Label> = labels.into_iter().map(
        |l: (String, String)| Label::new(l.0, l.1),
    ).collect();
    MetricKey::from_parts(name, labels)
}

/// The name of a metric, and its labels.
#[derive(Debug, Clone)]
pub struct MetricBuilder {
    pub name: String,
    pub labels: Vec<(String, String)>,
}

impl MetricBuilder {
    /// A metric without labels.
    pub fn new(name: String) -> (builder: Self)
        ensures
            builder.name == name,
            builder.labels@.len() == 0,
    {
        MetricBuilder { name, labels: Vec::new() }
    }

    /// The metric with one more label.
    pub fn with_label(self, key: String, value: String) -> (builder: Self)
        ensures
            builder.name == self.name,
            builder.labels@ == self.labels@.push((key, value)),
    {
        let mut labels = self.labels;
        labels.push((key, value));
        MetricBuilder { name: self.name, labels }
    }

    /// The metric with the label of its component.
    pub fn with_component(self, component: String) -> (builder: Self)
        ensures
            builder.name == self.name,
            label_views(builder.labels@) == label_views(self.labels@).push(
                ("component"@, component@),
            ),
    {
        let ghost before = self.labels@;
        let builder = self.with_label(String::from_str("component"), component);
        proof {
            assert(label_views(builder.labels@) =~= label_views(before).push(
                ("component"@, component@),
            ));
        }
        builder
    }

    /// The key of the metric.
    pub fn build(self) -> (key: MetricKey)
        ensures
            key_name(key) == self.name@,
            key_labels(key) == label_views(self.labels@),
    {
        key_from_parts(self.name, self.labels)
    }

    pub fn name(&self) -> (name: &str)
        ensures
            name@ == self.name@,
    {
        self.name.as_str()
    }

    /// The labels as a map. Of a label that was given twice, the last value counts.
    pub fn labels_map(&self) -> (map: AssocMap<String, String>)
        ensures
            map.wf(),
            text_map(map@) == labels_as_map(label_views(self.labels@)),
    {
        collect_labels(&self.labels)
    }
}

/// The component that a metric is labelled with.
pub open spec fn component_of(m: MetricView) -> Option<Seq<char>> {
    let labels = labels_as_map(m.labels);
    if labels.contains_key("component"@) {
        Some(labels["component"@])
    } else {
        None
    }
}

/// The component that a metric is labelled with.
fn find_component(m: &MetricValue) -> (component: Option<String>)
    ensures
        match component {
            Some(c) => component_of(m@) == Some(c@),
            None => component_of(m@) is None,
        },
{
    let labels = collect_labels(&m.labels);
    let name = String::from_str("component");
    match labels.get(&name) {
        Some(c) => Some(c.clone()),
        None => None,
    }
}

/// Whether a metric is that of a component.
pub open spec fn is_of_component(component: Seq<char>) -> spec_fn(MetricView) -> bool {
    |m: MetricView| component_of(m) == Some(component)
}

/// Whether a metric is of a type.
pub open spec fn is_of_type(metric_type: MetricType) -> spec_fn(MetricView) -> bool {
    |m: MetricView| m.metric_type == metric_type
}

/// A metric of a component.
pub open spec fn component_metric(
    name: Seq<char>,
    component: Seq<char>,
    metric_type: MetricType,
    value: MetricNumber,
    timestamp: SimTime,
) -> MetricView {
    MetricView {
        key: name,
        metric_type,
        value,
        timestamp,
        labels: seq![("component"@, component)],
    }
}

/// How many metrics are of a type.
pub open spec fn count_of_type(metrics: Seq<MetricView>, metric_type: MetricType) -> nat
    decreases metrics.len(),
{
    if metrics.len() == 0 {
        0
    } else if metrics.last().metric_type == metric_type {
        count_of_type(metrics.drop_last(), metric_type) + 1
    } else {
        count_of_type(metrics.drop_last(), metric_type)
    }
}

/// The components that metrics are labelled with, each once, in the order in which they
/// came.
pub open spec fn components_of(metrics: Seq<MetricView>) -> Seq<Seq<char>>
    decreases metrics.len(),
{
    if metrics.len() == 0 {
        Seq::empty()
    } else {
        let front = components_of(metrics.drop_last());
        match component_of(metrics.last()) {
            Some(c) => if front.contains(c) {
                front
            } else {
                front.push(c)
            },
            None => front,
        }
    }
}

/// The views of texts.
pub open spec fn text_views(s: Seq<String>) -> Seq<Seq<char>> {
    s.map_values(|t: String| t@)
}

/// The views of borrowed metrics.
pub open spec fn ref_views(s: Seq<&MetricValue>) -> Seq<MetricView> {
    s.map_values(|m: &MetricValue| m@)
}

/// Records metrics.
#[derive(Debug)]
pub struct SimulationMetrics {
    recorded_metrics: Vec<MetricValue>,
}

impl View for SimulationMetrics {
    type V = Seq<MetricView>;

    closed spec fn view(&self) -> Seq<MetricView> {
        metric_views(self.recorded_metrics@)
    }
}

impl Default for SimulationMetrics {
    fn default() -> (metrics: Self)
        ensures
            metrics@ == Seq::<MetricView>::empty(),
    {
        SimulationMetrics::new()
    }
}

impl SimulationMetrics {
    /// No metrics.
    pub fn new() -> (metrics: Self)
        ensures
            metrics@ == Seq::<MetricView>::empty(),
    {
        let metrics = SimulationMetrics { recorded_metrics: Vec::new() };
        proof {
            assert(metrics@ =~= Seq::empty());
        }
        metrics
    }

    fn record(
        &mut self,
        name: String,
        component: String,
        metric_type: MetricType,
        value: MetricNumber,
        timestamp: SimTime,
    )
        ensures
            final(self)@ == old(self)@.push(
                component_metric(name@, component@, metric_type, value, timestamp),
            ),
    {
        let builder = MetricBuilder::new(name).with_component(component);
        let metric = MetricValue {
            key: builder.name,
            metric_type,
            value,
            timestamp,
            labels: builder.labels,
        };
        proof {
            assert(metric@.labels =~= seq![("component"@, component@)]);
        }
        self.recorded_metrics.push(metric);
        proof {
            assert(self@ =~= old(self)@.push(metric@));
        }
    }

    /// Counts one.
    pub fn increment_counter(&mut self, name: String, component: String, timestamp: SimTime)
        ensures
            final(self)@ == old(self)@.push(
                component_metric(
                    name@,
                    component@,
                    MetricType::Counter,
                    MetricNumber::Count(1),
                    timestamp,
                ),
            ),
    {
        self.record(name, component, MetricType::Counter, MetricNumber::Count(1), timestamp);
    }

    /// Counts.
    pub fn increment_counter_by(
        &mut self,
        name: String,
        component: String,
        value: u64,
        timestamp: SimTime,
    )
        ensures
            final(self)@ == old(self)@.push(
                component_metric(
                    name@,
                    component@,
                    MetricType::Counter,
                    MetricNumber::Count(value),
                    timestamp,
                ),
            ),
    {
        self.record(name, component, MetricType::Counter, MetricNumber::Count(value), timestamp);
    }

    /// Records the value of a gauge.
    pub fn record_gauge(
        &mut self,
        name: String,
        component: String,
        value_bits: u64,
        timestamp: SimTime,
    )
        ensures
            final(self)@ == old(self)@.push(
                component_metric(
                    name@,
                    component@,
                    MetricType::Gauge,
                    MetricNumber::Bits(value_bits),
                    timestamp,
                ),
            ),
    {
        self.record(name, component, MetricType::Gauge, MetricNumber::Bits(value_bits), timestamp);
    }

    /// Records a value of a distribution.
    pub fn record_histogram(
        &mut self,
        name: String,
        component: String,
        value_bits: u64,
        timestamp: SimTime,
    )
        ensures
            final(self)@ == old(self)@.push(
                component_metric(
                    name@,
                    component@,
                    MetricType::Histogram,
                    MetricNumber::Bits(value_bits),
                    timestamp,
                ),
            ),
    {
        self.record(
            name,
            component,
            MetricType::Histogram,
            MetricNumber::Bits(value_bits),
            timestamp,
        );
    }

    /// Records a duration as a value of a distribution.
    pub fn record_duration(
        &mut self,
        name: String,
        component: String,
        duration: Duration,
        timestamp: SimTime,
    )
        ensures
            final(self)@ == old(self)@.push(
                component_metric(
                    name@,
                    component@,
                    MetricType::Histogram,
                    MetricNumber::Millis(duration),
                    timestamp,
                ),
            ),
    {
        self.record(
            name,
            component,
            MetricType::Histogram,
            MetricNumber::Millis(duration),
            timestamp,
        );
    }

    /// All metrics.
    pub fn get_metrics(&self) -> (metrics: &Vec<MetricValue>)
        ensures
            metric_views(metrics@) == self@,
    {
        &self.recorded_metrics
    }

    /// The metrics of a component.
    pub fn get_component_metrics(&self, component: &str) -> (metrics: Vec<&MetricValue>)
        ensures
            ref_views(metrics@) == self@.filter(is_of_component(component@)),
    {
        let ghost views = self@;
        let name = String::from_str(component);
        let mut metrics: Vec<&MetricValue> = Vec::new();
        let mut i: usize = 0;
        proof {
            reveal(Seq::filter);
            assert(ref_views(metrics@) =~= views.take(0).filter(is_of_component(component@)));
        }
        while i < self.recorded_metrics.len()
            invariant
                views == self@,
                name@ == component@,
                i <= self.recorded_metrics@.len(),
                ref_views(metrics@) == views.take(i as int).filter(is_of_component(component@)),
            decreases self.recorded_metrics@.len() - i,
        {
            let metric = &self.recorded_metrics[i];
            let ghost before = metrics@;
            proof {
                reveal(Seq::filter);
                assert(views.take(i + 1).drop_last() =~= views.take(i as int));
                assert(views.take(i + 1).last() == metric@);
            }
            let same = match find_component(metric) {
                Some(c) => c == name,
                None => false,
            };
            if same {
                metrics.push(metric);
                proof {
                    assert(ref_views(metrics@) =~= ref_views(before).push(metric@));
                }
            }
            i = i + 1;
        }
        proof {
            assert(views.take(i as int) =~= views);
        }
        metrics
    }

    /// The metrics of a type.
    pub fn get_metrics_by_type(&self, metric_type: MetricType) -> (metrics: Vec<&MetricValue>)
        ensures
            ref_views(metrics@) == self@.filter(is_of_type(metric_type)),
    {
        let ghost views = self@;
        let mut metrics: Vec<&MetricValue> = Vec::new();
        let mut i: usize = 0;
        proof {
            reveal(Seq::filter);
            assert(ref_views(metrics@) =~= views.take(0).filter(is_of_type(metric_type)));
        }
        while i < self.recorded_metrics.len()
            invariant
                views == self@,
                i <= self.recorded_metrics@.len(),
                ref_views(metrics@) == views.take(i as int).filter(is_of_type(metric_type)),
            decreases self.recorded_metrics@.len() - i,
        {
            let metric = &self.recorded_metrics[i];
            let ghost before = metrics@;
            proof {
                reveal(Seq::filter);
                assert(views.take(i + 1).drop_last() =~= views.take(i as int));
                assert(views.take(i + 1).last() == metric@);
            }
            if metric.metric_type == metric_type {
                metrics.push(metric);
                proof {
                    assert(ref_views(metrics@) =~= ref_views(before).push(metric@));
                }
            }
            i = i + 1;
        }
        proof {
            assert(views.take(i as int) =~= views);
        }
        metrics
    }

    /// Forgets all metrics.
    pub fn clear(&mut self)
        ensures
            final(self)@ == Seq::<MetricView>::empty(),
    {
        self.recorded_metrics.clear();
        proof {
            assert(self@ =~= Seq::empty());
        }
    }

    /// How many metrics there are, of each type and in all, and of how many components.
    pub fn summary(&self) -> (summary: MetricsSummary)
        ensures
            summary.total_metrics == self@.len(),
            summary.total_counters == count_of_type(self@, MetricType::Counter),
            summary.total_gauges == count_of_type(self@, MetricType::Gauge),
            summary.total_histograms == count_of_type(self@, MetricType::Histogram),
            summary.components == components_of(self@).len(),
    {
        let ghost views = self@;
        let mut counters: usize = 0;
        let mut gauges: usize = 0;
        let mut histograms: usize = 0;
        let mut components: Vec<String> = Vec::new();
        let mut i: usize = 0;
        proof {
            assert(views.take(0) =~= Seq::empty());
            assert(text_views(components@) =~= Seq::empty());
        }
        while i < self.recorded_metrics.len()
            invariant
                views == self@,
                i <= self.recorded_metrics@.len(),
                counters == count_of_type(views.take(i as int), MetricType::Counter),
                gauges == count_of_type(views.take(i as int), MetricType::Gauge),
                histograms == count_of_type(views.take(i as int), MetricType::Histogram),
                counters <= i,
                gauges <= i,
                histograms <= i,
                text_views(components@) == components_of(views.take(i as int)),
            decreases self.recorded_metrics@.len() - i,
        {
            let metric = &self.recorded_metrics[i];
            let ghost before = components@;
            proof {
                assert(views.take(i + 1).drop_last() =~= views.take(i as int));
                assert(views.take(i + 1).last() == metric@);
            }
            match metric.metric_type {
                MetricType::Counter => {
                    counters = counters + 1;
                },
                MetricType::Gauge => {
                    gauges = gauges + 1;
                },
                MetricType::Histogram => {
                    histograms = histograms + 1;
                },
            }
            if let Some(c) = find_component(metric) {
                if !has_text(&components, &c) {
                    components.push(c);
                    proof {
                        assert(text_views(components@) =~= text_views(before).push(c@));
                    }
                }
            }
            i = i + 1;
        }
        proof {
            assert(views.take(i as int) =~= views);
        }
        MetricsSummary {
            total_metrics: self.recorded_metrics.len(),
            total_counters: counters,
            total_gauges: gauges,
            total_histograms: histograms,
            components: components.len(),
        }
    }
}

fn has_text(texts: &Vec<String>, text: &String) -> (has: bool)
    ensures
        has == text_views(texts@).contains(text@),
{
    let ghost views = text_views(texts@);
    let mut i: usize = 0;
    while i < texts.len()
        invariant
            i <= texts@.len(),
            views == text_views(texts@),
            forall|k: int| 0 <= k < i ==> views[k] != text@,
        decreases texts@.len() - i,
    {
        proof {
            assert(views[i as int] == texts@[i as int]@);
        }
        if texts[i] == *text {
            return true;
        }
        i = i + 1;
    }
    false
}

/// How many metrics were recorded.
#[derive(Debug, Clone, Copy, PartialEq, Eq, Structural, Default)]
pub struct MetricsSummary {
    pub total_metrics: usize,
    pub total_counters: usize,
    pub total_gauges: usize,
    pub total_histograms: usize,
    pub components: usize,
}

impl MetricsSummary {
    /// The summary as a sentence.
    pub fn to_string(&self) -> (s: String)
        ensures
            s@ == "Metrics Summary: "@ + crate::text::decimal(self.total_metrics as nat)
                + " total ("@ + crate::text::decimal(self.total_counters as nat) + " counters, "@
                + crate::text::decimal(self.total_gauges as nat) + " gauges, "@
                + crate::text::decimal(self.total_histograms as nat) + " histograms) from "@
                + crate::text::decimal(self.components as nat) + " components"@,
    {
        let mut s = String::from_str("Metrics Summary: ");
        s.append(decimal_string(self.total_metrics as u64).as_str());
        s.append(" total (");
        s.append(decimal_string(self.total_counters as u64).as_str());
        s.append(" counters, ");
        s.append(decimal_string(self.total_gauges as u64).as_str());
        s.append(" gauges, ");
        s.append(decimal_string(self.total_histograms as u64).as_str());
        s.append(" histograms) from ");
        s.append(decimal_string(self.components as u64).as_str());
        s.append(" components");
        s
    }
}

/// Every metric is of one type.
pub proof fn types_add_up(metrics: Seq<MetricView>)
    ensures
        count_of_type(metrics, MetricType::Counter) + count_of_type(metrics, MetricType::Gauge)
            + count_of_type(metrics, MetricType::Histogram) == metrics.len(),
    decreases metrics.len(),
{
    if metrics.len() > 0 {
        types_add_up(metrics.drop_last());
    }
}

/// The components of metrics are those that they are labelled with, each once.
pub proof fn components_are_those_of_the_metrics(metrics: Seq<MetricView>)
    ensures
        forall|c: Seq<char>| #[trigger]
            components_of(metrics).contains(c) <==> exists|i: int|
                0 <= i < metrics.len() && component_of(#[trigger] metrics[i]) == Some(c),
        forall|i: int, j: int|
            0 <= i < j < components_of(metrics).len() ==> #[trigger] components_of(metrics)[i]
                != #[trigger] components_of(metrics)[j],
    decreases metrics.len(),
{
    if metrics.len() > 0 {
        let rest = metrics.drop_last();
        components_are_those_of_the_metrics(rest);
        let front = components_of(rest);
        let all = components_of(metrics);
        let last = component_of(metrics.last());
        assert forall|c: Seq<char>| #[trigger] all.contains(c) <==> exists|i: int|
            0 <= i < metrics.len() && component_of(#[trigger] metrics[i]) == Some(c) by {
            if all.contains(c) {
                if front.contains(c) {
                    let i = choose|i: int|
                        0 <= i < rest.len() && component_of(#[trigger] rest[i]) == Some(c);
                    assert(component_of(metrics[i]) == Some(c));
                } else {
                    let k = choose|k: int| 0 <= k < all.len() && all[k] == c;
                    if k < front.len() {
                        assert(front[k] == c);
                    }
                    assert(component_of(metrics[metrics.len() - 1]) == Some(c));
                }
            }
            if exists|i: int| 0 <= i < metrics.len() && component_of(#[trigger] metrics[i]) == Some(c) {
                let i = choose|i: int|
                    0 <= i < metrics.len() && component_of(#[trigger] metrics[i]) == Some(c);
                if i < rest.len() {
                    assert(component_of(rest[i]) == Some(c));
                    assert(front.contains(c));
                    let k = choose|k: int| 0 <= k < front.len() && front[k] == c;
                    assert(all[k] == c);
                } else if front.contains(c) {
                    let k = choose|k: int| 0 <= k < front.len() && front[k] == c;
                    assert(all[k] == c);
                } else {
                    assert(all[front.len() as int] == c);
                }
            }
        }
        assert forall|i: int, j: int| 0 <= i < j < all.len() implies #[trigger] all[i]
            != #[trigger] all[j] by {
            if j == front.len() {
                assert(all[i] == front[i]);
                assert(front.contains(front[i]));
            }
        }
    }
}

} // verus!
