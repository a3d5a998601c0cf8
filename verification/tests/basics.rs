//! Times, identifiers, distributions, metrics and errors.

use descartes::dists::{
    bursty_seed, exponential_seed, is_uniform_range, poisson_seed, uniform_seed, AndPredicate,
    ArrivalPattern, BodySizePredicate, BurstPhase, BurstPhases, ClientInfo, CompositeServiceTime,
    ConstantArrivalPattern, ConstantServiceTime, EndpointBasedServiceTime, HeaderPredicate,
    MethodPredicate, OrPredicate, RequestContext, RequestPredicate, RequestSizeBasedServiceTime,
    ServiceTimeDistribution, UriExactPredicate, UriPrefixPredicate,
};
use descartes::error::{EventError, SimError};
use descartes::explore::seeds::{derive_seed, rollout_seeds};
use descartes::ids::{deterministic_uuid, splitmix64};
use descartes::key::Key;
use descartes::measurement::{
    MetricBuilder, MetricNumber, MetricType, MetricsSummary, SimulationMetrics,
};
use descartes::randomness::{fnv1a64, runtime_site_id, DrawSite};
use descartes::task_id::TaskId;
use descartes::time::SimTime;
use descartes::types::EventId;
use std::time::Duration;
use uuid::Uuid;

#[test]
fn test_simtime_creation() {
    assert_eq!(SimTime::zero().as_nanos(), 0);
    assert_eq!(SimTime::from_nanos(1000).as_nanos(), 1000);
    assert_eq!(SimTime::from_micros(1).as_nanos(), 1_000);
    assert_eq!(SimTime::from_millis(1).as_nanos(), 1_000_000);
    assert_eq!(SimTime::from_secs(1).as_nanos(), 1_000_000_000);
}

#[test]
fn test_simtime_arithmetic() {
    let t1 = SimTime::from_millis(100);
    let t2 = SimTime::from_millis(50);
    let duration = Duration::from_millis(25);

    assert_eq!(t1 + duration, SimTime::from_millis(125));
    assert_eq!(t1 - duration, SimTime::from_millis(75));
    assert_eq!(t1 - t2, Duration::from_millis(50));
}

#[test]
fn test_simtime_ordering() {
    let t1 = SimTime::from_millis(100);
    let t2 = SimTime::from_millis(200);

    assert!(t1 < t2);
    assert!(t2 > t1);
    assert_eq!(t1, t1);
}

#[test]
fn times_stay_in_range() {
    let last = SimTime::from_nanos(u64::MAX);
    assert_eq!(last + Duration::from_secs(1), last);
    assert_eq!(last + last, last);
    assert_eq!(SimTime::zero() - Duration::from_secs(1), SimTime::zero());
    assert_eq!(SimTime::zero() - last, Duration::ZERO);
    assert_eq!(SimTime::zero().duration_since(last), Duration::ZERO);
    assert_eq!(last * 2, last);
    assert_eq!(SimTime::from_millis(2) * 3, SimTime::from_millis(6));
    assert_eq!(SimTime::default(), SimTime::zero());
}

#[test]
fn times_and_durations_convert_into_each_other() {
    let d = Duration::from_micros(1_234_567);
    assert_eq!(SimTime::from_duration(d).as_duration(), d);
    assert_eq!(SimTime::from_millis(5).as_duration(), Duration::from_millis(5));
    assert_eq!(
        SimTime::from_millis(5).add_duration(d).sub_duration(d),
        SimTime::from_millis(5)
    );
}

#[test]
fn times_are_written_in_their_unit() {
    assert_eq!(SimTime::from_millis(1500).to_string(), "1.500s");
    assert_eq!(SimTime::from_micros(2_050).to_string(), "2.050ms");
    assert_eq!(SimTime::from_nanos(3_141).to_string(), "3.141µs");
    assert_eq!(SimTime::from_nanos(42).to_string(), "42ns");
    assert_eq!(SimTime::zero().to_string(), "0ns");
}

#[test]
fn identifiers_are_written() {
    assert_eq!(EventId(7).to_string(), "Event(7)");
    let id = Uuid::from_u128(0x0123_4567_89ab_cdef_0123_4567_89ab_cdef);
    assert_eq!(
        TaskId(id).to_string(),
        "Task(01234567-89ab-cdef-0123-456789abcdef)"
    );
}

#[test]
fn identifiers_are_derived_from_seed_and_counter() {
    let a = deterministic_uuid(1, 2, 3);
    assert_eq!(a, deterministic_uuid(1, 2, 3));
    assert_ne!(a, deterministic_uuid(2, 2, 3));
    assert_ne!(a, deterministic_uuid(1, 3, 3));
    assert_ne!(a, deterministic_uuid(1, 2, 4));
    assert_ne!(Key::<()>::numbered(1).id(), Key::<()>::numbered(2).id());
    assert_eq!(Key::<()>::numbered(1).id(), Key::<()>::numbered(1).id());
}

#[test]
fn seeds_are_scrambled() {
    assert_eq!(splitmix64(0), 0xE220_A839_7B1D_CDAF);
    assert_eq!(derive_seed(0, 0), 0);
    assert_eq!(derive_seed(0, 1), 0xE220_A839_7B1D_CDAF);
    assert_ne!(derive_seed(1, 1), derive_seed(1, 2));
    assert_ne!(derive_seed(1, 1), derive_seed(2, 1));
}

#[test]
fn seeds_of_a_trial_are_apart() {
    let seeds = rollout_seeds(7, 3);
    assert_eq!(seeds.model_seed, derive_seed(7, 3));
    let policy = derive_seed(7 ^ 0xA0A0_A0A0_A0A0_A0A0, 3);
    assert_eq!(seeds.frontier_seed, derive_seed(policy ^ 0xF00D_F00D_F00D_F00D, 0));
    assert_eq!(seeds.ready_seed, derive_seed(policy ^ 0xBEEF_BEEF_BEEF_BEEF, 0));
    assert_ne!(seeds.frontier_seed, seeds.ready_seed);
}

#[test]
fn labels_are_hashed() {
    assert_eq!(fnv1a64(""), 0xcbf2_9ce4_8422_2325);
    assert_eq!(fnv1a64("a"), 0xaf63_dc4c_8601_ec8c);
    assert_eq!(runtime_site_id("arrival", "x"), runtime_site_id("arrival", "x"));
    assert_ne!(runtime_site_id("arrival", "x"), runtime_site_id("arrival", "y"));
    let site = DrawSite::new("arrival", 3);
    assert_eq!(site.tag, "arrival");
    assert_eq!(site.site_id, 3);
}

#[test]
fn test_constant_arrival_pattern() {
    let mut pattern = ConstantArrivalPattern::new(Duration::from_millis(100));
    assert_eq!(pattern.next_arrival_time(), Duration::from_millis(100));
    assert_eq!(pattern.next_arrival_time(), Duration::from_millis(100));
}

#[test]
fn test_constant_service_time() {
    let mut dist = ConstantServiceTime::new(Duration::from_millis(100));
    assert_eq!(dist.sample(), Duration::from_millis(100));
    assert_eq!(dist.sample(), Duration::from_millis(100));
    let request = RequestContext::default();
    assert_eq!(dist.expected_service_time(&request), Duration::from_millis(100));
}

fn request(method: &str, uri: &str, body_size: usize) -> RequestContext {
    RequestContext {
        method: method.to_string(),
        uri: uri.to_string(),
        body_size,
        ..RequestContext::default()
    }
}

#[test]
fn service_time_grows_with_the_size_of_a_request() {
    let mut dist = RequestSizeBasedServiceTime::new(
        Duration::from_millis(10),
        Duration::from_micros(100),
        Duration::from_millis(20),
    );
    assert_eq!(dist.base_time(), Duration::from_millis(10));
    assert_eq!(dist.time_per_byte(), Duration::from_micros(100));
    assert_eq!(dist.max_time(), Duration::from_millis(20));
    assert_eq!(dist.sample(), Duration::from_millis(10));
    assert_eq!(
        dist.sample_service_time(&request("GET", "/", 50)),
        Duration::from_millis(15)
    );
    assert_eq!(
        dist.sample_service_time(&request("GET", "/", 100)),
        Duration::from_millis(20)
    );
    assert_eq!(
        dist.expected_service_time(&request("GET", "/", 1000)),
        Duration::from_millis(20)
    );
}

#[test]
fn service_time_depends_on_the_endpoint() {
    let mut dist = EndpointBasedServiceTime::new(ConstantServiceTime::new(Duration::from_millis(1)));
    dist.add_endpoint("/a".to_string(), ConstantServiceTime::new(Duration::from_millis(2)));
    dist.add_endpoint("/b".to_string(), ConstantServiceTime::new(Duration::from_millis(3)));
    dist.add_endpoint("/a".to_string(), ConstantServiceTime::new(Duration::from_millis(4)));
    assert_eq!(dist.sample_service_time(&request("GET", "/a", 0)), Duration::from_millis(4));
    assert_eq!(dist.sample_service_time(&request("GET", "/b", 0)), Duration::from_millis(3));
    assert_eq!(dist.sample_service_time(&request("GET", "/c", 0)), Duration::from_millis(1));
    assert_eq!(dist.expected_service_time(&request("GET", "/b", 0)), Duration::from_millis(3));
    assert_eq!(dist.expected_service_time(&request("GET", "", 0)), Duration::from_millis(1));
}

#[test]
fn service_time_depends_on_the_first_rule_that_matches() {
    let mut dist = CompositeServiceTime::new(ConstantServiceTime::new(Duration::from_millis(1)));
    dist.add_rule(
        UriPrefixPredicate("/api".to_string()),
        ConstantServiceTime::new(Duration::from_millis(2)),
    );
    dist.add_rule(
        UriPrefixPredicate("/api/v2".to_string()),
        ConstantServiceTime::new(Duration::from_millis(3)),
    );
    dist.add_rule(
        UriPrefixPredicate("/".to_string()),
        ConstantServiceTime::new(Duration::from_millis(4)),
    );
    assert_eq!(dist.sample_service_time(&request("GET", "/api/v2", 0)), Duration::from_millis(2));
    assert_eq!(dist.sample_service_time(&request("GET", "/x", 0)), Duration::from_millis(4));
    assert_eq!(dist.sample_service_time(&request("GET", "x", 0)), Duration::from_millis(1));
    assert_eq!(dist.expected_service_time(&request("GET", "/api", 0)), Duration::from_millis(2));
    assert_eq!(dist.expected_service_time(&request("GET", "", 0)), Duration::from_millis(1));
}

#[test]
fn predicates_tell_requests_apart() {
    let mut r = request("GET", "/api/users", 100);
    r.headers.insert("accept".to_string(), "json".to_string());
    r.client_info = Some(ClientInfo {
        client_id: "c".to_string(),
        priority: 1,
        region: "eu".to_string(),
    });
    assert!(MethodPredicate("GET".to_string()).matches(&r));
    assert!(!MethodPredicate("PUT".to_string()).matches(&r));
    assert!(UriPrefixPredicate("/api".to_string()).matches(&r));
    assert!(UriPrefixPredicate("".to_string()).matches(&r));
    assert!(!UriPrefixPredicate("/api/users/1".to_string()).matches(&r));
    assert!(!UriPrefixPredicate("api".to_string()).matches(&r));
    assert!(UriExactPredicate("/api/users".to_string()).matches(&r));
    assert!(!UriExactPredicate("/api".to_string()).matches(&r));
    assert!(BodySizePredicate(100..101).matches(&r));
    assert!(!BodySizePredicate(0..100).matches(&r));
    let header = |name: &str, value: &str| HeaderPredicate {
        header_name: name.to_string(),
        header_value: value.to_string(),
    };
    assert!(header("accept", "json").matches(&r));
    assert!(!header("accept", "xml").matches(&r));
    assert!(!header("host", "json").matches(&r));
    let methods = |names: &[&str]| -> Vec<MethodPredicate> {
        names.iter().map(|n| MethodPredicate(n.to_string())).collect()
    };
    assert!(AndPredicate(methods(&[])).matches(&r));
    assert!(AndPredicate(methods(&["GET", "GET"])).matches(&r));
    assert!(!AndPredicate(methods(&["GET", "PUT"])).matches(&r));
    assert!(!OrPredicate(methods(&[])).matches(&r));
    assert!(OrPredicate(methods(&["PUT", "GET"])).matches(&r));
    assert!(!OrPredicate(methods(&["PUT"])).matches(&r));
}

#[test]
fn test_bursty_arrivals_creation() {
    let phases = BurstPhases::new(Duration::from_secs(1), Duration::from_secs(2));
    assert_eq!(phases.current_phase(), BurstPhase::Burst);
    assert_eq!(phases.phase_remaining(), Duration::from_secs(1));
}

#[test]
fn phases_alternate() {
    let mut phases = BurstPhases::new(Duration::from_secs(1), Duration::from_secs(2));
    // Within the burst.
    let t = Duration::from_millis(400);
    assert_eq!(phases.arrive(t), Some(t));
    assert_eq!(phases.current_phase(), BurstPhase::Burst);
    assert_eq!(phases.phase_remaining(), Duration::from_millis(600));
    // Behind its end.
    let t = Duration::from_millis(900);
    assert_eq!(phases.arrive(t), Some(t));
    assert_eq!(phases.current_phase(), BurstPhase::Quiet);
    assert_eq!(phases.phase_remaining(), Duration::from_millis(1700));
    // At the very end.
    assert_eq!(phases.arrive(Duration::from_millis(1700)), None);
    assert_eq!(phases.current_phase(), BurstPhase::Burst);
    assert_eq!(phases.phase_remaining(), Duration::from_secs(1));
    // Far behind the end.
    let t = Duration::from_secs(10);
    assert_eq!(phases.arrive(t), Some(t));
    assert_eq!(phases.current_phase(), BurstPhase::Quiet);
    assert_eq!(phases.phase_remaining(), Duration::ZERO);
    phases.skip_phase();
    assert_eq!(phases.current_phase(), BurstPhase::Burst);
    assert_eq!(phases.phase_remaining(), Duration::from_secs(1));
}

#[test]
fn nothing_comes_while_it_is_quiet() {
    let mut phases = BurstPhases::new(Duration::from_secs(1), Duration::from_secs(2));
    let t = Duration::from_millis(1250);
    assert_eq!(phases.arrive(t), Some(t));
    assert_eq!(phases.phase_remaining(), Duration::from_millis(1750));
    // The rest of the quiet period is waited for.
    phases.skip_phase();
    assert_eq!(phases.waited, Duration::from_millis(1750));
    let t = Duration::from_millis(100);
    assert_eq!(phases.arrive(t), Some(Duration::from_millis(1850)));
    assert_eq!(phases.phase_remaining(), Duration::from_millis(900));
    assert_eq!(phases.arrive(t), Some(t));
    // It is still waited for where the time has to be drawn again.
    assert_eq!(phases.arrive(Duration::from_millis(800)), None);
    phases.skip_phase();
    assert_eq!(phases.arrive(Duration::from_secs(1)), None);
    phases.skip_phase();
    assert_eq!(phases.arrive(t), Some(Duration::from_millis(4100)));
    // No time is longer than the longest one.
    let mut phases = BurstPhases::new(Duration::from_secs(1), Duration::MAX);
    phases.skip_phase();
    phases.skip_phase();
    assert_eq!(phases.waited, Duration::MAX);
    assert_eq!(phases.arrive(t), Some(Duration::MAX));
}

#[test]
fn test_bursty_arrivals_provider_injection() {
    // Every draw is half a second, and so is every time between requests.
    let mut phases = BurstPhases::new(Duration::from_secs(1), Duration::from_secs(1));
    let draw = Duration::from_secs_f64(0.5);
    for _ in 0..5 {
        let mut time = phases.arrive(draw);
        while time.is_none() {
            time = phases.arrive(draw);
        }
        assert_eq!(time, Some(Duration::from_secs_f64(0.5)));
    }
}

#[test]
fn distributions_are_seeded_apart() {
    let rate = 2.5f64.to_bits();
    assert_eq!(poisson_seed(9, rate), 9 ^ 0xA5A5_5A5A_0101_0203 ^ rate);
    assert_eq!(exponential_seed(9, rate), 9 ^ 0xC3C3_3C3C_0303_0407 ^ rate);
    let (min, max) = (Duration::from_millis(5), Duration::from_millis(7));
    assert_eq!(
        uniform_seed(9, min, max),
        9 ^ 0xD2D2_2D2D_0404_0509 ^ 5_000_000 ^ 7_000_000u64.rotate_left(13)
    );
    assert_eq!(
        bursty_seed(9, min, max, rate, 1),
        9 ^ 0xB4B4_4B4B_0202_0305 ^ 5_000_000 ^ 7_000_000u64.rotate_left(11) ^ rate
            ^ 1u64.rotate_left(7)
    );
    assert!(is_uniform_range(min, max));
    assert!(!is_uniform_range(max, min));
    assert!(!is_uniform_range(min, min));
}

#[test]
fn test_metric_builder() {
    let builder = MetricBuilder::new("test_metric".to_string())
        .with_component("test_component".to_string())
        .with_label("type".to_string(), "test".to_string());

    assert_eq!(builder.name(), "test_metric");

    let labels = builder.labels_map();
    assert_eq!(labels.get(&"component".to_string()), Some(&"test_component".to_string()));
    assert_eq!(labels.get(&"type".to_string()), Some(&"test".to_string()));
}

#[test]
fn the_last_value_of_a_label_counts() {
    let labels = MetricBuilder::new("m".to_string())
        .with_component("a".to_string())
        .with_component("b".to_string())
        .labels_map();
    assert_eq!(labels.len(), 1);
    assert_eq!(labels.get(&"component".to_string()), Some(&"b".to_string()));
    assert_eq!(labels.get(&"other".to_string()), None);
}

#[test]
fn a_key_holds_the_name_and_the_labels() {
    let key = MetricBuilder::new("m".to_string())
        .with_component("a".to_string())
        .with_label("type".to_string(), "t".to_string())
        .build();
    assert_eq!(key.name(), "m");
    let labels: Vec<(&str, &str)> = key.labels().map(|l| (l.key(), l.value())).collect();
    assert_eq!(labels, vec![("component", "a"), ("type", "t")]);
}

/// The number that a measured value stands for.
fn number(value: MetricNumber) -> f64 {
    match value {
        MetricNumber::Count(n) => n as f64,
        MetricNumber::Bits(bits) => f64::from_bits(bits),
        MetricNumber::Millis(d) => d.as_secs_f64() * 1000.0,
    }
}

#[test]
fn test_simulation_metrics_counter() {
    let mut metrics = SimulationMetrics::new();
    let timestamp = SimTime::from_duration(Duration::from_secs(1));

    metrics.increment_counter("requests".to_string(), "client".to_string(), timestamp);
    metrics.increment_counter_by("bytes".to_string(), "client".to_string(), 1024, timestamp);

    let recorded = metrics.get_metrics();
    assert_eq!(recorded.len(), 2);

    assert_eq!(recorded[0].metric_type, MetricType::Counter);
    assert_eq!(number(recorded[0].value), 1.0);
    assert_eq!(number(recorded[1].value), 1024.0);
    assert_eq!(recorded[1].key, "bytes");
    assert_eq!(recorded[1].timestamp, timestamp);
}

#[test]
fn test_simulation_metrics_gauge() {
    let mut metrics = SimulationMetrics::new();
    let timestamp = SimTime::from_duration(Duration::from_secs(1));

    metrics.record_gauge(
        "queue_size".to_string(),
        "server".to_string(),
        42.0f64.to_bits(),
        timestamp,
    );

    let recorded = metrics.get_metrics();
    assert_eq!(recorded.len(), 1);
    assert_eq!(recorded[0].metric_type, MetricType::Gauge);
    assert_eq!(number(recorded[0].value), 42.0);
}

#[test]
fn test_simulation_metrics_histogram() {
    let mut metrics = SimulationMetrics::new();
    let timestamp = SimTime::from_duration(Duration::from_secs(1));

    metrics.record_histogram(
        "latency".to_string(),
        "server".to_string(),
        123.45f64.to_bits(),
        timestamp,
    );
    metrics.record_duration(
        "processing_time".to_string(),
        "server".to_string(),
        Duration::from_millis(250),
        timestamp,
    );

    let recorded = metrics.get_metrics();
    assert_eq!(recorded.len(), 2);
    assert_eq!(recorded[0].metric_type, MetricType::Histogram);
    assert_eq!(number(recorded[0].value), 123.45);
    assert_eq!(number(recorded[1].value), 250.0); // Duration converted to millis
}

#[test]
fn test_component_filtering() {
    let mut metrics = SimulationMetrics::new();
    let timestamp = SimTime::from_duration(Duration::from_secs(1));

    metrics.increment_counter("requests".to_string(), "client1".to_string(), timestamp);
    metrics.increment_counter("requests".to_string(), "client2".to_string(), timestamp);
    metrics.record_gauge(
        "queue_size".to_string(),
        "server".to_string(),
        10.0f64.to_bits(),
        timestamp,
    );

    let client1_metrics = metrics.get_component_metrics("client1");
    assert_eq!(client1_metrics.len(), 1);

    let server_metrics = metrics.get_component_metrics("server");
    assert_eq!(server_metrics.len(), 1);
    assert_eq!(server_metrics[0].metric_type, MetricType::Gauge);

    assert_eq!(metrics.get_metrics_by_type(MetricType::Counter).len(), 2);
    assert_eq!(metrics.get_metrics_by_type(MetricType::Histogram).len(), 0);
}

#[test]
fn test_metrics_summary() {
    let mut metrics = SimulationMetrics::default();
    let timestamp = SimTime::from_duration(Duration::from_secs(1));

    metrics.increment_counter("requests".to_string(), "client".to_string(), timestamp);
    metrics.record_gauge(
        "queue_size".to_string(),
        "server".to_string(),
        10.0f64.to_bits(),
        timestamp,
    );
    metrics.record_histogram(
        "latency".to_string(),
        "server".to_string(),
        50.0f64.to_bits(),
        timestamp,
    );

    let summary = metrics.summary();
    assert_eq!(summary.total_metrics, 3);
    assert_eq!(summary.total_counters, 1);
    assert_eq!(summary.total_gauges, 1);
    assert_eq!(summary.total_histograms, 1);
    assert_eq!(summary.components, 2);
    assert_eq!(
        summary.to_string(),
        "Metrics Summary: 3 total (1 counters, 1 gauges, 1 histograms) from 2 components"
    );

    metrics.clear();
    assert_eq!(metrics.summary(), MetricsSummary::default());
}

#[test]
fn event_errors_are_simulation_errors() {
    assert_eq!(
        SimError::from(EventError::EmptyQueue),
        SimError::Event(EventError::EmptyQueue)
    );
}

#[test]
fn service_time_of_a_large_request_is_exact() {
    let mut dist = RequestSizeBasedServiceTime::new(
        Duration::from_millis(1),
        Duration::from_nanos(1),
        Duration::from_secs(10),
    );
    let large = request("GET", "/", 4_294_967_296);
    assert_eq!(dist.sample_service_time(&large), Duration::from_nanos(4_295_967_296));
    assert_eq!(dist.expected_service_time(&large), Duration::from_nanos(4_295_967_296));
    // A time that no duration could hold is still capped.
    let mut dist =
        RequestSizeBasedServiceTime::new(Duration::MAX, Duration::MAX, Duration::from_secs(3));
    assert_eq!(
        dist.sample_service_time(&request("GET", "/", usize::MAX)),
        Duration::from_secs(3)
    );
}

#[test]
fn a_cloned_builder_builds_on_from_the_same_labels() {
    let builder = MetricBuilder::new("m".to_string()).with_component("a".to_string());
    let other = builder.clone().with_label("type".to_string(), "t".to_string());
    assert_eq!(builder.labels_map().len(), 1);
    assert_eq!(other.name(), "m");
    assert_eq!(other.labels_map().len(), 2);
    assert_eq!(other.labels_map().get(&"component".to_string()), Some(&"a".to_string()));
}
