//! Arrival patterns and service times.

use crate::assoc_map::AssocMap;
use crate::duration::{duration_of, total_nanos, truncated_nanos};
use crate::text::text_starts_with;
use std::time::Duration;
use vstd::prelude::*;
use vstd::string::StringExecFns;

verus! {

/// Generates the times between requests.
pub trait ArrivalPattern: Sized {
    /// Whether a time can follow.
    open spec fn arrives(before: Self, after: Self, time: Duration) -> bool {
        true
    }

    /// The time until the next request.
    fn next_arrival_time(&mut self) -> (time: Duration)
        ensures
            Self::arrives(*old(self), *final(self), time),
    ;
}

/// Who sends a request.
#[derive(Debug, PartialEq, Eq)]
pub struct ClientInfo {
    pub client_id: String,
    pub priority: u8,
    pub region: String,
}

/// What a service time can depend on.
pub struct RequestContext {
    pub method: String,
    pub uri: String,
    pub headers: AssocMap<String, String>,
    pub body_size: usize,
    pub payload: Vec<u8>,
    pub client_info: Option<ClientInfo>,
}

impl RequestContext {
    /// Whether this is a request of which nothing is known.
    pub open spec fn is_blank(self) -> bool {
        &&& self.method@ == Seq::<char>::empty()
        &&& self.uri@ == Seq::<char>::empty()
        &&& self.headers@ == Map::<Seq<char>, String>::empty()
        &&& self.body_size == 0
        &&& self.payload@ == Seq::<u8>::empty()
        &&& self.client_info is None
    }
}

impl Default for RequestContext {
    fn default() -> (request: Self)
        ensures
            request.is_blank(),
    {
        proof {
            reveal_strlit("");
            assert(""@ =~= Seq::<char>::empty());
        }
        RequestContext {
            method: String::from_str(""),
            uri: String::from_str(""),
            headers: AssocMap::new(),
            body_size: 0,
            payload: Vec::new(),
            client_info: None,
        }
    }
}

/// Generates service times.
pub trait ServiceTimeDistribution: Sized {
    /// Whether a service time can be given for a request. Where it cannot, it is out of
    /// range.
    open spec fn serves(self, request: RequestContext) -> bool {
        true
    }

    /// Whether a service time can be drawn for a request.
    open spec fn samples(before: Self, request: RequestContext, after: Self, time: Duration) -> bool {
        true
    }

    /// Whether a service time can be expected of a request.
    open spec fn expects(self, request: RequestContext, time: Duration) -> bool {
        true
    }

    /// Draws the service time of a request of which nothing is known.
    fn sample(&mut self) -> (time: Duration)
        requires
            forall|r: RequestContext| #[trigger] r.is_blank() ==> old(self).serves(r),
        ensures
            exists|r: RequestContext| #[trigger]
                r.is_blank() && Self::samples(*old(self), r, *final(self), time),
    {
        let request = RequestContext::default();
        self.sample_service_time(&request)
    }

    /// Draws the service time of a request.
    fn sample_service_time(&mut self, request: &RequestContext) -> (time: Duration)
        requires
            old(self).serves(*request),
        ensures
            Self::samples(*old(self), *request, *final(self), time),
    ;

    /// The service time that is expected of a request.
    fn expected_service_time(&self, request: &RequestContext) -> (time: Duration)
        requires
            self.serves(*request),
        ensures
            self.expects(*request, time),
    ;
}

/// Requests at equal distances.
#[derive(Debug, Clone, Copy, PartialEq, Eq)]
pub struct ConstantArrivalPattern {
    pub inter_arrival_time: Duration,
}

impl ConstantArrivalPattern {
    pub fn new(inter_arrival_time: Duration) -> (pattern: Self)
        ensures
            pattern.inter_arrival_time == inter_arrival_time,
    {
        ConstantArrivalPattern { inter_arrival_time }
    }
}

impl ArrivalPattern for ConstantArrivalPattern {
    open spec fn arrives(before: Self, after: Self, time: Duration) -> bool {
        after == before && time == before.inter_arrival_time
    }

    fn next_arrival_time(&mut self) -> (time: Duration) {
        self.inter_arrival_time
    }
}

/// The same service time for every request.
#[derive(Debug, Clone, Copy, PartialEq, Eq)]
pub struct ConstantServiceTime {
    pub duration: Duration,
}

impl ConstantServiceTime {
    pub fn new(duration: Duration) -> (dist: Self)
        ensures
            dist.duration == duration,
    {
        ConstantServiceTime { duration }
    }
}

impl ServiceTimeDistribution for ConstantServiceTime {
    open spec fn serves(self, request: RequestContext) -> bool {
        true
    }

    open spec fn samples(before: Self, request: RequestContext, after: Self, time: Duration) -> bool {
        after == before && time == before.duration
    }

    open spec fn expects(self, request: RequestContext, time: Duration) -> bool {
        time == self.duration
    }

    fn sample_service_time(&mut self, request: &RequestContext) -> (time: Duration) {
        self.duration
    }

    fn expected_service_time(&self, request: &RequestContext) -> (time: Duration) {
        self.duration
    }
}

/// A service time that grows with the size of the request, up to a limit.
#[derive(Debug, Clone, Copy, PartialEq, Eq)]
pub struct RequestSizeBasedServiceTime {
    pub base_time: Duration,
    pub time_per_byte: Duration,
    pub max_time: Duration,
}

impl RequestSizeBasedServiceTime {
    pub fn new(base_time: Duration, time_per_byte: Duration, max_time: Duration) -> (dist: Self)
        ensures
            dist.base_time == base_time,
            dist.time_per_byte == time_per_byte,
            dist.max_time == max_time,
    {
        RequestSizeBasedServiceTime { base_time, time_per_byte, max_time }
    }

    pub fn base_time(&self) -> (time: Duration)
        ensures
            time == self.base_time,
    {
        self.base_time
    }

    pub fn time_per_byte(&self) -> (time: Duration)
        ensures
            time == self.time_per_byte,
    {
        self.time_per_byte
    }

    pub fn max_time(&self) -> (time: Duration)
        ensures
            time == self.max_time,
    {
        self.max_time
    }

    /// The time that a request of a size takes before the limit applies, in
    /// nanoseconds.
    pub open spec fn unlimited_nanos(self, body_size: usize) -> int {
        crate::duration::duration_nanos(self.base_time) + crate::duration::duration_nanos(
            self.time_per_byte,
        ) * body_size
    }

    /// The time that a request of a size takes, in nanoseconds.
    pub open spec fn nanos(self, body_size: usize) -> int {
        let limit = crate::duration::duration_nanos(self.max_time) as int;
        if self.unlimited_nanos(body_size) < limit {
            self.unlimited_nanos(body_size)
        } else {
            limit
        }
    }

    fn time_of(&self, body_size: usize) -> (time: Duration)
        ensures
            crate::duration::duration_nanos(time) == self.nanos(body_size),
    {
        let bytes: u128 = body_size as u128;
        let per_byte: u128 = total_nanos(self.time_per_byte);
        let base: u128 = total_nanos(self.base_time);
        let limit: u128 = total_nanos(self.max_time);
        proof {
            assert(per_byte * bytes >= 0) by (nonlinear_arith);
        }
        if base >= limit {
            return self.max_time;
        }
        let room: u128 = limit - base;
        if per_byte > 0 && bytes > room / per_byte {
            proof {
                let most = room as int / per_byte as int;
                assert(per_byte * bytes > room) by (nonlinear_arith)
                    requires
                        bytes >= most + 1,
                        most == room as int / per_byte as int,
                        per_byte > 0,
                ;
            }
            return self.max_time;
        }
        proof {
            if per_byte > 0 {
                let most = room as int / per_byte as int;
                assert(per_byte * bytes <= room) by (nonlinear_arith)
                    requires
                        bytes <= most,
                        most == room as int / per_byte as int,
                        per_byte > 0,
                ;
            } else {
                assert(per_byte * bytes == 0) by (nonlinear_arith)
                    requires
                        per_byte == 0,
                ;
            }
        }
        duration_of(base + per_byte * bytes)
    }
}

impl ServiceTimeDistribution for RequestSizeBasedServiceTime {
    open spec fn serves(self, request: RequestContext) -> bool {
        true
    }

    open spec fn samples(before: Self, request: RequestContext, after: Self, time: Duration) -> bool {
        after == before && crate::duration::duration_nanos(time) == before.nanos(request.body_size)
    }

    open spec fn expects(self, request: RequestContext, time: Duration) -> bool {
        crate::duration::duration_nanos(time) == self.nanos(request.body_size)
    }

    fn sample_service_time(&mut self, request: &RequestContext) -> (time: Duration) {
        self.time_of(request.body_size)
    }

    fn expected_service_time(&self, request: &RequestContext) -> (time: Duration) {
        self.time_of(request.body_size)
    }
}

/// A service time that depends on where a request goes.
pub struct EndpointBasedServiceTime<D> {
    pub endpoint_distributions: AssocMap<String, D>,
    pub default_distribution: D,
}

impl<D> EndpointBasedServiceTime<D> {
    pub fn new(default_distribution: D) -> (dist: Self)
        ensures
            dist.endpoint_distributions@ == Map::<Seq<char>, D>::empty(),
            dist.default_distribution == default_distribution,
    {
        EndpointBasedServiceTime { endpoint_distributions: AssocMap::new(), default_distribution }
    }

    /// Gives an endpoint a distribution of its own.
    pub fn add_endpoint(&mut self, endpoint: String, distribution: D)
        ensures
            final(self).endpoint_distributions@ == old(self).endpoint_distributions@.insert(
                endpoint@,
                distribution,
            ),
            final(self).default_distribution == old(self).default_distribution,
    {
        self.endpoint_distributions.insert(endpoint, distribution);
    }
}

impl<D: ServiceTimeDistribution> ServiceTimeDistribution for EndpointBasedServiceTime<D> {
    open spec fn serves(self, request: RequestContext) -> bool {
        if self.endpoint_distributions@.contains_key(request.uri@) {
            self.endpoint_distributions@[request.uri@].serves(request)
        } else {
            self.default_distribution.serves(request)
        }
    }

    open spec fn samples(before: Self, request: RequestContext, after: Self, time: Duration) -> bool {
        let uri = request.uri@;
        if before.endpoint_distributions@.contains_key(uri) {
            &&& after.default_distribution == before.default_distribution
            &&& after.endpoint_distributions@.contains_key(uri)
            &&& after.endpoint_distributions@ == before.endpoint_distributions@.insert(
                uri,
                after.endpoint_distributions@[uri],
            )
            &&& D::samples(
                before.endpoint_distributions@[uri],
                request,
                after.endpoint_distributions@[uri],
                time,
            )
        } else {
            &&& after.endpoint_distributions@ == before.endpoint_distributions@
            &&& D::samples(before.default_distribution, request, after.default_distribution, time)
        }
    }

    open spec fn expects(self, request: RequestContext, time: Duration) -> bool {
        if self.endpoint_distributions@.contains_key(request.uri@) {
            self.endpoint_distributions@[request.uri@].expects(request, time)
        } else {
            self.default_distribution.expects(request, time)
        }
    }

    fn sample_service_time(&mut self, request: &RequestContext) -> (time: Duration) {
        match self.endpoint_distributions.get_mut(&request.uri) {
            Some(dist) => dist.sample_service_time(request),
            None => self.default_distribution.sample_service_time(request),
        }
    }

    fn expected_service_time(&self, request: &RequestContext) -> (time: Duration) {
        match self.endpoint_distributions.get(&request.uri) {
            Some(dist) => dist.expected_service_time(request),
            None => self.default_distribution.expected_service_time(request),
        }
    }
}

/// Tells requests apart.
pub trait RequestPredicate: Sized {
    /// Whether it holds of a request.
    spec fn holds(self, request: RequestContext) -> bool;

    fn matches(&self, request: &RequestContext) -> (matched: bool)
        ensures
            matched == self.holds(*request),
    ;
}

/// A distribution for the requests of which something holds.
pub struct ServiceTimeRule<C, D> {
    pub condition: C,
    pub distribution: D,
}

/// A service time that depends on the first rule whose condition holds.
pub struct CompositeServiceTime<C, D> {
    pub rules: Vec<ServiceTimeRule<C, D>>,
    pub default_distribution: D,
}

/// Whether a rule is the first one whose condition holds.
pub open spec fn is_first_match<C: RequestPredicate, D>(
    rules: Seq<ServiceTimeRule<C, D>>,
    request: RequestContext,
    k: int,
) -> bool {
    &&& 0 <= k < rules.len()
    &&& rules[k].condition.holds(request)
    &&& forall|i: int| 0 <= i < k ==> !(#[trigger] rules[i]).condition.holds(request)
}

/// Whether the condition of no rule holds.
pub open spec fn matches_none<C: RequestPredicate, D>(
    rules: Seq<ServiceTimeRule<C, D>>,
    request: RequestContext,
) -> bool {
    forall|i: int| 0 <= i < rules.len() ==> !(#[trigger] rules[i]).condition.holds(request)
}

impl<C, D> CompositeServiceTime<C, D> {
    pub fn new(default_distribution: D) -> (dist: Self)
        ensures
            dist.rules@.len() == 0,
            dist.default_distribution == default_distribution,
    {
        CompositeServiceTime { rules: Vec::new(), default_distribution }
    }

    /// Adds a rule behind the others.
    pub fn add_rule(&mut self, condition: C, distribution: D)
        ensures
            final(self).rules@ == old(self).rules@.push(
                (ServiceTimeRule { condition, distribution }),
            ),
            final(self).default_distribution == old(self).default_distribution,
    {
        self.rules.push(ServiceTimeRule { condition, distribution });
    }
}

impl<C: RequestPredicate, D> CompositeServiceTime<C, D> {
    /// The first rule whose condition holds.
    fn first_match(&self, request: &RequestContext) -> (k: usize)
        ensures
            k < self.rules@.len() ==> is_first_match(self.rules@, *request, k as int),
            k >= self.rules@.len() ==> matches_none(self.rules@, *request),
    {
        let mut k: usize = 0;
        while k < self.rules.len()
            invariant
                k <= self.rules@.len(),
                forall|i: int|
                    0 <= i < k ==> !(#[trigger] self.rules@[i]).condition.holds(*request),
            decreases self.rules@.len() - k,
        {
            if self.rules[k].condition.matches(request) {
                return k;
            }
            k = k + 1;
        }
        k
    }
}

impl<C: RequestPredicate, D: ServiceTimeDistribution> ServiceTimeDistribution for CompositeServiceTime<
    C,
    D,
> {
    open spec fn serves(self, request: RequestContext) -> bool {
        &&& forall|k: int|
            #[trigger] is_first_match(self.rules@, request, k)
                ==> self.rules@[k].distribution.serves(request)
        &&& matches_none(self.rules@, request) ==> self.default_distribution.serves(request)
    }

    open spec fn samples(before: Self, request: RequestContext, after: Self, time: Duration) -> bool {
        if matches_none(before.rules@, request) {
            &&& after.rules@ == before.rules@
            &&& D::samples(before.default_distribution, request, after.default_distribution, time)
        } else {
            exists|k: int|
                {
                    &&& #[trigger] is_first_match(before.rules@, request, k)
                    &&& after.default_distribution == before.default_distribution
                    &&& after.rules@.len() == before.rules@.len()
                    &&& after.rules@[k].condition == before.rules@[k].condition
                    &&& after.rules@ == before.rules@.update(k, after.rules@[k])
                    &&& D::samples(
                        before.rules@[k].distribution,
                        request,
                        after.rules@[k].distribution,
                        time,
                    )
                }
        }
    }

    open spec fn expects(self, request: RequestContext, time: Duration) -> bool {
        if matches_none(self.rules@, request) {
            self.default_distribution.expects(request, time)
        } else {
            exists|k: int|
                #[trigger] is_first_match(self.rules@, request, k)
                    && self.rules@[k].distribution.expects(request, time)
        }
    }

    fn sample_service_time(&mut self, request: &RequestContext) -> (time: Duration) {
        let k: usize = self.first_match(request);
        if k < self.rules.len() {
            let ghost before = self.rules@;
            let time = self.rules[k].distribution.sample_service_time(request);
            proof {
                assert(self.rules@ =~= before.update(k as int, self.rules@[k as int]));
                assert(is_first_match(before, *request, k as int));
            }
            time
        } else {
            self.default_distribution.sample_service_time(request)
        }
    }

    fn expected_service_time(&self, request: &RequestContext) -> (time: Duration) {
        let k: usize = self.first_match(request);
        if k < self.rules.len() {
            self.rules[k].distribution.expected_service_time(request)
        } else {
            self.default_distribution.expected_service_time(request)
        }
    }
}

/// Requests with a method.
#[derive(Debug, PartialEq, Eq)]
pub struct MethodPredicate(pub String);

impl RequestPredicate for MethodPredicate {
    open spec fn holds(self, request: RequestContext) -> bool {
        request.method@ == self.0@
    }

    fn matches(&self, request: &RequestContext) -> (matched: bool) {
        request.method == self.0
    }
}

/// Requests whose URI starts in one way.
#[derive(Debug, PartialEq, Eq)]
pub struct UriPrefixPredicate(pub String);

impl RequestPredicate for UriPrefixPredicate {
    open spec fn holds(self, request: RequestContext) -> bool {
        self.0@.is_prefix_of(request.uri@)
    }

    fn matches(&self, request: &RequestContext) -> (matched: bool) {
        text_starts_with(&request.uri, &self.0)
    }
}

/// Requests with a URI.
#[derive(Debug, PartialEq, Eq)]
pub struct UriExactPredicate(pub String);

impl RequestPredicate for UriExactPredicate {
    open spec fn holds(self, request: RequestContext) -> bool {
        request.uri@ == self.0@
    }

    fn matches(&self, request: &RequestContext) -> (matched: bool) {
        request.uri == self.0
    }
}

/// Requests whose body has a size in a range, the end of which is not included.
#[derive(Debug, PartialEq, Eq)]
pub struct BodySizePredicate(pub std::ops::Range<usize>);

impl RequestPredicate for BodySizePredicate {
    open spec fn holds(self, request: RequestContext) -> bool {
        self.0.start <= request.body_size < self.0.end
    }

    fn matches(&self, request: &RequestContext) -> (matched: bool) {
        self.0.start <= request.body_size && request.body_size < self.0.end
    }
}

/// Requests with a value of a header.
#[derive(Debug, PartialEq, Eq)]
pub struct HeaderPredicate {
    pub header_name: String,
    pub header_value: String,
}

impl RequestPredicate for HeaderPredicate {
    open spec fn holds(self, request: RequestContext) -> bool {
        request.headers@.contains_key(self.header_name@) && request.headers@[self.header_name@]@
            == self.header_value@
    }

    fn matches(&self, request: &RequestContext) -> (matched: bool) {
        match request.headers.get(&self.header_name) {
            Some(value) => *value == self.header_value,
            None => false,
        }
    }
}

/// Requests of which all of some predicates hold.
#[derive(Debug, PartialEq, Eq)]
pub struct AndPredicate<P>(pub Vec<P>);

impl<P: RequestPredicate> RequestPredicate for AndPredicate<P> {
    open spec fn holds(self, request: RequestContext) -> bool {
        forall|i: int| 0 <= i < self.0@.len() ==> (#[trigger] self.0@[i]).holds(request)
    }

    fn matches(&self, request: &RequestContext) -> (matched: bool) {
        let mut i: usize = 0;
        while i < self.0.len()
            invariant
                i <= self.0@.len(),
                forall|k: int| 0 <= k < i ==> (#[trigger] self.0@[k]).holds(*request),
            decreases self.0@.len() - i,
        {
            if !self.0[i].matches(request) {
                return false;
            }
            i = i + 1;
        }
        true
    }
}

/// Requests of which one of some predicates holds.
#[derive(Debug, PartialEq, Eq)]
pub struct OrPredicate<P>(pub Vec<P>);

impl<P: RequestPredicate> RequestPredicate for OrPredicate<P> {
    open spec fn holds(self, request: RequestContext) -> bool {
        exists|i: int| 0 <= i < self.0@.len() && (#[trigger] self.0@[i]).holds(request)
    }

    fn matches(&self, request: &RequestContext) -> (matched: bool) {
        let mut i: usize = 0;
        while i < self.0.len()
            invariant
                i <= self.0@.len(),
                forall|k: int| 0 <= k < i ==> !(#[trigger] self.0@[k]).holds(*request),
            decreases self.0@.len() - i,
        {
            if self.0[i].matches(request) {
                return true;
            }
            i = i + 1;
        }
        false
    }
}

/// The first rule whose condition holds is the only one: rules behind it do not count.
pub proof fn first_match_is_unique<C: RequestPredicate, D>(
    rules: Seq<ServiceTimeRule<C, D>>,
    request: RequestContext,
    a: int,
    b: int,
)
    requires
        is_first_match(rules, request, a),
        is_first_match(rules, request, b),
    ensures
        a == b,
        !matches_none(rules, request),
{
}

/// Requests come in bursts, with quiet periods in between.
#[derive(Debug, Clone, Copy, PartialEq, Eq, Structural)]
pub enum BurstPhase {
    Burst,
    Quiet,
}

/// In which phase requests come, and how long it lasts still.
#[derive(Debug, Clone, Copy)]
pub struct BurstPhases {
    pub burst_duration: Duration,
    pub quiet_duration: Duration,
    pub current_phase: BurstPhase,
    pub phase_remaining: Duration,
    /// How long it was waited since the last request, while no requests could come.
    pub waited: Duration,
}

/// The sum of two durations in nanoseconds, or the longest duration where it is longer.
pub open spec fn capped_sum(a: nat, b: nat) -> nat {
    if a + b <= crate::duration::max_duration_nanos() {
        a + b
    } else {
        crate::duration::max_duration_nanos()
    }
}

fn add_capped(a: Duration, b: Duration) -> (sum: Duration)
    ensures
        crate::duration::duration_nanos(sum) == capped_sum(
            crate::duration::duration_nanos(a),
            crate::duration::duration_nanos(b),
        ),
{
    let longest: u128 = 0xFFFF_FFFF_FFFF_FFFF * 1_000_000_000 + 999_999_999;
    let total: u128 = total_nanos(a) + total_nanos(b);
    if total <= longest {
        duration_of(total)
    } else {
        duration_of(longest)
    }
}

impl BurstPhases {
    /// How long a phase is, in nanoseconds.
    pub open spec fn phase_nanos(self, phase: BurstPhase) -> nat {
        match phase {
            BurstPhase::Burst => crate::duration::duration_nanos(self.burst_duration),
            BurstPhase::Quiet => crate::duration::duration_nanos(self.quiet_duration),
        }
    }

    pub open spec fn remaining_nanos(self) -> nat {
        crate::duration::duration_nanos(self.phase_remaining)
    }

    pub open spec fn waited_nanos(self) -> nat {
        crate::duration::duration_nanos(self.waited)
    }

    pub open spec fn wf(self) -> bool {
        self.remaining_nanos() <= self.phase_nanos(self.current_phase)
    }

    /// Starts with a burst.
    pub fn new(burst_duration: Duration, quiet_duration: Duration) -> (phases: Self)
        ensures
            phases.wf(),
            phases.burst_duration == burst_duration,
            phases.quiet_duration == quiet_duration,
            phases.current_phase == BurstPhase::Burst,
            phases.phase_remaining == burst_duration,
            phases.waited_nanos() == 0,
    {
        BurstPhases {
            burst_duration,
            quiet_duration,
            current_phase: BurstPhase::Burst,
            phase_remaining: burst_duration,
            waited: Duration::from_nanos(0),
        }
    }

    pub fn current_phase(&self) -> (phase: BurstPhase)
        ensures
            phase == self.current_phase,
    {
        self.current_phase
    }

    pub fn phase_remaining(&self) -> (remaining: Duration)
        ensures
            remaining == self.phase_remaining,
    {
        self.phase_remaining
    }

    /// Takes in the time that was drawn until the next request, and says how long it is
    /// until then since the last one: as long as was drawn, and as long as was waited
    /// before.
    ///
    /// Within the phase, the request comes then. Behind its end, the request comes then
    /// too, and the next phase has begun. At its very end, the next phase begins and what
    /// was drawn counts for nothing: the time until the next request has to be drawn
    /// again.
    pub fn arrive(&mut self, inter_arrival: Duration) -> (time: Option<Duration>)
        requires
            old(self).wf(),
        ensures
            final(self).wf(),
            final(self).burst_duration == old(self).burst_duration,
            final(self).quiet_duration == old(self).quiet_duration,
            ({
                let t = crate::duration::duration_nanos(inter_arrival);
                let left = old(self).remaining_nanos();
                let other = match old(self).current_phase {
                    BurstPhase::Burst => BurstPhase::Quiet,
                    BurstPhase::Quiet => BurstPhase::Burst,
                };
                let next = old(self).phase_nanos(other);
                &&& time is None <==> t == left
                &&& time matches Some(d) ==> crate::duration::duration_nanos(d) == capped_sum(
                    old(self).waited_nanos(),
                    t,
                )
                &&& final(self).waited_nanos() == if t == left {
                    old(self).waited_nanos()
                } else {
                    0
                }
                &&& final(self).current_phase == if t < left {
                    old(self).current_phase
                } else {
                    other
                }
                &&& final(self).remaining_nanos() == if t < left {
                    (left - t) as nat
                } else if next >= t - left {
                    (next - (t - left)) as nat
                } else {
                    0
                }
            }),
    {
        let t: u128 = total_nanos(inter_arrival);
        let left: u128 = total_nanos(self.phase_remaining);
        if t < left {
            self.phase_remaining = duration_of(left - t);
            return Some(self.waited_and(inter_arrival));
        }
        let beyond: u128 = t - left;
        self.switch_phase();
        if beyond > 0 {
            let next: u128 = total_nanos(self.phase_remaining);
            let rest: u128 = if next >= beyond {
                next - beyond
            } else {
                0
            };
            self.phase_remaining = duration_of(rest);
            Some(self.waited_and(inter_arrival))
        } else {
            None
        }
    }

    /// The time that was waited, and some more. It is not waited any more then.
    fn waited_and(&mut self, more: Duration) -> (time: Duration)
        ensures
            crate::duration::duration_nanos(time) == capped_sum(
                old(self).waited_nanos(),
                crate::duration::duration_nanos(more),
            ),
            final(self).waited_nanos() == 0,
            *final(self) == (BurstPhases { waited: final(self).waited, ..*old(self) }),
    {
        let time = add_capped(self.waited, more);
        self.waited = Duration::from_nanos(0);
        time
    }

    /// Begins the next phase.
    fn switch_phase(&mut self)
        ensures
            final(self).wf(),
            final(self).current_phase != old(self).current_phase,
            final(self).phase_remaining == (match final(self).current_phase {
                BurstPhase::Burst => old(self).burst_duration,
                BurstPhase::Quiet => old(self).quiet_duration,
            }),
            final(self).burst_duration == old(self).burst_duration,
            final(self).quiet_duration == old(self).quiet_duration,
            final(self).waited == old(self).waited,
    {
        match self.current_phase {
            BurstPhase::Burst => {
                self.current_phase = BurstPhase::Quiet;
                self.phase_remaining = self.quiet_duration;
            },
            BurstPhase::Quiet => {
                self.current_phase = BurstPhase::Burst;
                self.phase_remaining = self.burst_duration;
            },
        }
    }

    /// Waits for the end of a phase without requests. The time that it lasted still is
    /// part of the time until the next request.
    pub fn skip_phase(&mut self)
        requires
            old(self).wf(),
        ensures
            final(self).wf(),
            final(self).burst_duration == old(self).burst_duration,
            final(self).quiet_duration == old(self).quiet_duration,
            final(self).current_phase != old(self).current_phase,
            final(self).remaining_nanos() == final(self).phase_nanos(final(self).current_phase),
            final(self).waited_nanos() == capped_sum(
                old(self).waited_nanos(),
                old(self).remaining_nanos(),
            ),
    {
        self.waited = add_capped(self.waited, self.phase_remaining);
        self.switch_phase();
    }
}

/// The bits of a number, moved to the left in a circle.
pub open spec fn rotated(x: u64, by: u64) -> u64 {
    x << by | x >> ((64 - by) as u64)
}

fn rotate(x: u64, by: u64) -> (r: u64)
    requires
        0 < by < 64,
    ensures
        r == rotated(x, by),
{
    x << by | x >> (64 - by)
}

/// Sets the seed of an arrival pattern with exponential distances apart.
pub const POISSON_MASK: u64 = 0xA5A5_5A5A_0101_0203;

/// Sets the seed of an arrival pattern with bursts apart.
pub const BURSTY_MASK: u64 = 0xB4B4_4B4B_0202_0305;

/// Sets the seed of an exponential distribution apart.
pub const EXPONENTIAL_MASK: u64 = 0xC3C3_3C3C_0303_0407;

/// Sets the seed of a uniform distribution apart.
pub const UNIFORM_MASK: u64 = 0xD2D2_2D2D_0404_0509;

/// The seed of an arrival pattern with exponential distances: it depends on the rate.
pub fn poisson_seed(seed: u64, rate_bits: u64) -> (s: u64)
    ensures
        s == seed ^ POISSON_MASK ^ rate_bits,
{
    seed ^ POISSON_MASK ^ rate_bits
}

/// The seed of an exponential distribution: it depends on the rate.
pub fn exponential_seed(seed: u64, rate_bits: u64) -> (s: u64)
    ensures
        s == seed ^ EXPONENTIAL_MASK ^ rate_bits,
{
    seed ^ EXPONENTIAL_MASK ^ rate_bits
}

/// The seed of a uniform distribution: it depends on the ends of its range.
pub fn uniform_seed(seed: u64, min_duration: Duration, max_duration: Duration) -> (s: u64)
    ensures
        s == seed ^ UNIFORM_MASK ^ crate::duration::low_nanos(
            crate::duration::duration_nanos(min_duration),
        ) ^ rotated(
            crate::duration::low_nanos(crate::duration::duration_nanos(max_duration)),
            13,
        ),
{
    seed ^ UNIFORM_MASK ^ truncated_nanos(min_duration) ^ rotate(truncated_nanos(max_duration), 13)
}

/// The seed of an arrival pattern with bursts: it depends on the durations and the rates.
pub fn bursty_seed(
    seed: u64,
    burst_duration: Duration,
    quiet_duration: Duration,
    burst_rate_bits: u64,
    quiet_rate_bits: u64,
) -> (s: u64)
    ensures
        s == seed ^ BURSTY_MASK ^ crate::duration::low_nanos(
            crate::duration::duration_nanos(burst_duration),
        ) ^ rotated(
            crate::duration::low_nanos(crate::duration::duration_nanos(quiet_duration)),
            11,
        ) ^ burst_rate_bits ^ rotated(quiet_rate_bits, 7),
{
    seed ^ BURSTY_MASK ^ truncated_nanos(burst_duration) ^ rotate(
        truncated_nanos(quiet_duration),
        11,
    ) ^ burst_rate_bits ^ rotate(quiet_rate_bits, 7)
}

/// Whether a uniform distribution has a range: it starts before it ends.
pub fn is_uniform_range(min_duration: Duration, max_duration: Duration) -> (is: bool)
    ensures
        is == (crate::duration::duration_nanos(min_duration) < crate::duration::duration_nanos(
            max_duration,
        )),
{
    min_duration.as_nanos() < max_duration.as_nanos()
}

/// Arrivals and services at the same rate are seeded apart, and so are those at distinct
/// rates.
pub proof fn rates_are_seeded_apart(seed: u64, a: u64, b: u64)
    ensures
        seed ^ POISSON_MASK ^ a != seed ^ EXPONENTIAL_MASK ^ a,
        a != b ==> seed ^ POISSON_MASK ^ a != seed ^ POISSON_MASK ^ b,
        a != b ==> seed ^ EXPONENTIAL_MASK ^ a != seed ^ EXPONENTIAL_MASK ^ b,
{
    assert(seed ^ 0xA5A5_5A5A_0101_0203 ^ a != seed ^ 0xC3C3_3C3C_0303_0407 ^ a) by (bit_vector);
    assert(a != b ==> seed ^ 0xA5A5_5A5A_0101_0203 ^ a != seed ^ 0xA5A5_5A5A_0101_0203 ^ b)
        by (bit_vector);
    assert(a != b ==> seed ^ 0xC3C3_3C3C_0303_0407 ^ a != seed ^ 0xC3C3_3C3C_0303_0407 ^ b)
        by (bit_vector);
}

} // verus!
