//! What service times and the conditions on requests promise.

use crate::dists::{
    AndPredicate, BodySizePredicate, BurstPhase, BurstPhases, CompositeServiceTime,
    ConstantArrivalPattern, ConstantServiceTime, EndpointBasedServiceTime, HeaderPredicate,
    MethodPredicate, OrPredicate, RequestContext, RequestPredicate, RequestSizeBasedServiceTime,
    ServiceTimeDistribution, ServiceTimeRule, UriExactPredicate, UriPrefixPredicate,
};
use std::time::Duration;
use vstd::prelude::*;

verus! {

/// A service time by size is never longer than its limit and never longer than what the size
/// asks for, and it is one of the two. A request without a body takes the base time, and each
/// byte adds the same, as far as the limit allows. A larger body never takes less time.
pub proof fn service_time_grows_with_the_size(
    d: RequestSizeBasedServiceTime,
    size: usize,
    larger: usize,
)
    requires
        size <= larger,
    ensures
        ({
            let base = crate::duration::duration_nanos(d.base_time) as int;
            let each = crate::duration::duration_nanos(d.time_per_byte) as int;
            let limit = crate::duration::duration_nanos(d.max_time) as int;
            &&& d.nanos(size) <= limit
            &&& d.nanos(size) <= base + each * size
            &&& d.nanos(size) == limit || d.nanos(size) == base + each * size
            &&& d.nanos(size) <= d.nanos(larger)
            &&& d.unlimited_nanos(0) == base
            &&& size < larger ==> d.unlimited_nanos((size + 1) as usize) == d.unlimited_nanos(size)
                + each
        }),
{
    let base = crate::duration::duration_nanos(d.base_time) as int;
    let each = crate::duration::duration_nanos(d.time_per_byte) as int;
    assert(each * size <= each * larger) by (nonlinear_arith)
        requires
            0 <= each,
            size <= larger,
    ;
    assert(each * 0 == 0) by (nonlinear_arith);
    assert(each * (size + 1) == each * size + each) by (nonlinear_arith);
}

/// A constant service time is the same for every request, drawn or expected, and so is a
/// constant distance between arrivals.
pub proof fn constant_times_are_constant(
    d: ConstantServiceTime,
    d2: ConstantServiceTime,
    request: RequestContext,
    time: Duration,
    p: ConstantArrivalPattern,
    p2: ConstantArrivalPattern,
    distance: Duration,
)
    ensures
        ConstantServiceTime::samples(d, request, d2, time) ==> time == d.duration && d2.duration
            == d.duration,
        d.expects(request, time) <==> time == d.duration,
        <ConstantArrivalPattern as crate::dists::ArrivalPattern>::arrives(p, p2, distance)
            ==> distance == p.inter_arrival_time && p2.inter_arrival_time == p.inter_arrival_time,
{
}

/// A service time by endpoint serves a request with the distribution of its endpoint, and with
/// the default one where the endpoint has none. No other distribution draws.
pub proof fn other_endpoints_do_not_draw<D: ServiceTimeDistribution>(
    before: EndpointBasedServiceTime<D>,
    request: RequestContext,
    after: EndpointBasedServiceTime<D>,
    time: Duration,
    other: Seq<char>,
)
    requires
        EndpointBasedServiceTime::<D>::samples(before, request, after, time),
        other != request.uri@,
    ensures
        after.endpoint_distributions@.dom() == before.endpoint_distributions@.dom(),
        before.endpoint_distributions@.contains_key(other) ==> after.endpoint_distributions@[other]
            == before.endpoint_distributions@[other],
        before.endpoint_distributions@.contains_key(request.uri@) ==> {
            &&& after.default_distribution == before.default_distribution
            &&& D::samples(
                before.endpoint_distributions@[request.uri@],
                request,
                after.endpoint_distributions@[request.uri@],
                time,
            )
        },
        !before.endpoint_distributions@.contains_key(request.uri@) ==> D::samples(
            before.default_distribution,
            request,
            after.default_distribution,
            time,
        ),
{
    assert(after.endpoint_distributions@.dom() =~= before.endpoint_distributions@.dom());
}

/// Where some condition holds, there is a first one that does.
pub proof fn first_match_exists<C: RequestPredicate, D>(
    rules: Seq<ServiceTimeRule<C, D>>,
    request: RequestContext,
    i: int,
) -> (k: int)
    requires
        0 <= i < rules.len(),
        rules[i].condition.holds(request),
    ensures
        0 <= k <= i,
        rules[k].condition.holds(request),
        forall|j: int| 0 <= j < k ==> !(#[trigger] rules[j]).condition.holds(request),
        crate::dists::is_first_match(rules, request, k),
    decreases i,
{
    if exists|j: int| 0 <= j < i && (#[trigger] rules[j]).condition.holds(request) {
        let j = choose|j: int| 0 <= j < i && (#[trigger] rules[j]).condition.holds(request);
        first_match_exists(rules, request, j)
    } else {
        i
    }
}

/// A service time by rules serves a request with the first rule whose condition holds, and
/// with the default distribution where none does. No other distribution draws, and the
/// conditions stay as they are.
pub proof fn first_rule_that_holds_draws<C: RequestPredicate, D: ServiceTimeDistribution>(
    before: CompositeServiceTime<C, D>,
    request: RequestContext,
    after: CompositeServiceTime<C, D>,
    time: Duration,
    k: int,
)
    requires
        CompositeServiceTime::<C, D>::samples(before, request, after, time),
        0 <= k < before.rules@.len(),
    ensures
        after.rules@.len() == before.rules@.len(),
        after.rules@[k].condition == before.rules@[k].condition,
        after.rules@[k].distribution != before.rules@[k].distribution ==> {
            &&& before.rules@[k].condition.holds(request)
            &&& forall|i: int|
                0 <= i < k ==> !(#[trigger] before.rules@[i]).condition.holds(request)
        },
        before.rules@[k].condition.holds(request) && (forall|i: int|
            0 <= i < k ==> !(#[trigger] before.rules@[i]).condition.holds(request)) ==> {
            &&& after.default_distribution == before.default_distribution
            &&& D::samples(
                before.rules@[k].distribution,
                request,
                after.rules@[k].distribution,
                time,
            )
        },
        (forall|i: int|
            0 <= i < before.rules@.len() ==> !(#[trigger] before.rules@[i]).condition.holds(request))
            ==> D::samples(before.default_distribution, request, after.default_distribution, time),
{
    let rules = before.rules@;
    if !crate::dists::matches_none(rules, request) {
        let m = choose|m: int|
            {
                &&& #[trigger] crate::dists::is_first_match(rules, request, m)
                &&& after.default_distribution == before.default_distribution
                &&& after.rules@.len() == rules.len()
                &&& after.rules@[m].condition == rules[m].condition
                &&& after.rules@ == rules.update(m, after.rules@[m])
                &&& D::samples(
                    rules[m].distribution,
                    request,
                    after.rules@[m].distribution,
                    time,
                )
            };
        if k != m {
            assert(after.rules@[k] == rules.update(m, after.rules@[m])[k]);
        }
        if rules[k].condition.holds(request) && (forall|i: int|
            0 <= i < k ==> !(#[trigger] rules[i]).condition.holds(request)) {
            crate::dists::first_match_is_unique(rules, request, k, m);
        }
    }
}

/// What each condition on a request asks for: the method, the beginning of the address, the
/// whole address, the size of the body, or a header.
pub proof fn conditions_ask_for_what_they_say(
    request: RequestContext,
    method: MethodPredicate,
    prefix: UriPrefixPredicate,
    exact: UriExactPredicate,
    size: BodySizePredicate,
    header: HeaderPredicate,
)
    ensures
        method.holds(request) <==> request.method@ == method.0@,
        prefix.holds(request) <==> exists|rest: Seq<char>|
            request.uri@ == #[trigger] (prefix.0@ + rest),
        exact.holds(request) <==> request.uri@ == exact.0@,
        request.uri@ == exact.0@ && exact.0@ == prefix.0@ ==> prefix.holds(request),
        size.holds(request) <==> !(request.body_size < size.0.start || size.0.end
            <= request.body_size),
        header.holds(request) ==> request.headers@.contains_key(header.header_name@),
        request.headers@.contains_key(header.header_name@) ==> (header.holds(request) <==>
            request.headers@[header.header_name@]@ == header.header_value@),
{
    if prefix.holds(request) {
        let n = prefix.0@.len() as int;
        assert(request.uri@ =~= prefix.0@ + request.uri@.subrange(n, request.uri@.len() as int));
    }
    if exists|rest: Seq<char>| request.uri@ == #[trigger] (prefix.0@ + rest) {
        let rest = choose|rest: Seq<char>| request.uri@ == #[trigger] (prefix.0@ + rest);
        assert(prefix.0@ =~= request.uri@.subrange(0, prefix.0@.len() as int));
    }
    if request.uri@ == prefix.0@ {
        assert(prefix.0@ =~= request.uri@.subrange(0, prefix.0@.len() as int));
    }
}

/// One more condition narrows a conjunction by just that condition, and widens a disjunction
/// by just that one. Without conditions every request passes the one, and none the other.
pub proof fn conditions_combine<P: RequestPredicate>(
    request: RequestContext,
    all: AndPredicate<P>,
    all_more: AndPredicate<P>,
    any: OrPredicate<P>,
    any_more: OrPredicate<P>,
    last: P,
)
    requires
        all_more.0@ == all.0@.push(last),
        any_more.0@ == any.0@.push(last),
    ensures
        all_more.holds(request) <==> all.holds(request) && last.holds(request),
        any_more.holds(request) <==> any.holds(request) || last.holds(request),
        all.0@.len() == 0 ==> all.holds(request),
        any.0@.len() == 0 ==> !any.holds(request),
{
    let n = all.0@.len() as int;
    let m = any.0@.len() as int;
    assert(all_more.0@[n] == last);
    assert(any_more.0@[m] == last);
    assert forall|i: int| 0 <= i < n implies #[trigger] all.0@[i] == all_more.0@[i] by {}
    assert forall|i: int| 0 <= i < m implies #[trigger] any.0@[i] == any_more.0@[i] by {}
    if all.holds(request) && last.holds(request) {
        assert forall|i: int| 0 <= i < all_more.0@.len() implies (#[trigger] all_more.0@[i]).holds(
            request,
        ) by {
            if i < n {
                assert(all.0@[i].holds(request));
            }
        }
    }
    if all_more.holds(request) {
        assert forall|i: int| 0 <= i < n implies (#[trigger] all.0@[i]).holds(request) by {
            assert(all_more.0@[i].holds(request));
        }
    }
    if any.holds(request) {
        let i = choose|i: int| 0 <= i < m && (#[trigger] any.0@[i]).holds(request);
        assert(any_more.0@[i].holds(request));
    }
    if any_more.holds(request) {
        let i = choose|i: int| 0 <= i < m + 1 && (#[trigger] any_more.0@[i]).holds(request);
        if i < m {
            assert(any.0@[i].holds(request));
        }
    }
}

/// Two durations add up to their sum, unless that is longer than any duration, and the order
/// does not matter.
pub proof fn durations_add_up(a: nat, b: nat, c: nat)
    requires
        a <= crate::duration::max_duration_nanos(),
        b <= c,
    ensures
        crate::dists::capped_sum(a, b) <= crate::duration::max_duration_nanos(),
        a + b <= crate::duration::max_duration_nanos() ==> crate::dists::capped_sum(a, b) == a + b,
        a + b > crate::duration::max_duration_nanos() ==> crate::dists::capped_sum(a, b)
            == crate::duration::max_duration_nanos(),
        crate::dists::capped_sum(a, b) == crate::dists::capped_sum(b, a),
        crate::dists::capped_sum(a, b) <= crate::dists::capped_sum(a, c),
        crate::dists::capped_sum(a, 0) == a,
{
}

/// A burst lasts as long as bursts do, and a quiet period as long as those do.
pub proof fn phases_last_as_long_as_configured(phases: BurstPhases)
    ensures
        phases.phase_nanos(BurstPhase::Burst) == crate::duration::duration_nanos(
            phases.burst_duration,
        ),
        phases.phase_nanos(BurstPhase::Quiet) == crate::duration::duration_nanos(
            phases.quiet_duration,
        ),
        phases.wf() && phases.current_phase == BurstPhase::Burst ==> phases.remaining_nanos()
            <= crate::duration::duration_nanos(phases.burst_duration),
        phases.wf() && phases.current_phase == BurstPhase::Quiet ==> phases.remaining_nanos()
            <= crate::duration::duration_nanos(phases.quiet_duration),
{
}

/// Moving bits around in a circle loses none of them: moving them on to a whole turn gives
/// the number back.
pub proof fn rotation_is_undone(x: u64)
    ensures
        crate::dists::rotated(crate::dists::rotated(x, 13), 51) == x,
        crate::dists::rotated(crate::dists::rotated(x, 11), 53) == x,
        crate::dists::rotated(crate::dists::rotated(x, 7), 57) == x,
{
    assert((x << 13 | x >> 51) << 51 | (x << 13 | x >> 51) >> 13 == x) by (bit_vector);
    assert((x << 11 | x >> 53) << 53 | (x << 11 | x >> 53) >> 11 == x) by (bit_vector);
    assert((x << 7 | x >> 57) << 57 | (x << 7 | x >> 57) >> 7 == x) by (bit_vector);
}

/// What is expected of a service time by size is what is drawn, since nothing of it is left
/// to chance.
pub proof fn expected_times_by_size_are_those_drawn(
    before: RequestSizeBasedServiceTime,
    request: RequestContext,
    after: RequestSizeBasedServiceTime,
    drawn: Duration,
    expected: Duration,
)
    requires
        RequestSizeBasedServiceTime::samples(before, request, after, drawn),
        before.expects(request, expected),
    ensures
        crate::duration::duration_nanos(drawn) == crate::duration::duration_nanos(expected),
        crate::duration::duration_nanos(expected) == before.nanos(request.body_size),
        after.base_time == before.base_time,
        after.time_per_byte == before.time_per_byte,
        after.max_time == before.max_time,
{
}

/// The distribution that serves a request is the one that its time is expected of.
pub proof fn times_are_expected_of_the_distribution_that_serves<
    C: RequestPredicate,
    D: ServiceTimeDistribution,
>(
    by_endpoint: EndpointBasedServiceTime<D>,
    by_rule: CompositeServiceTime<C, D>,
    request: RequestContext,
    time: Duration,
    k: int,
)
    ensures
        by_endpoint.endpoint_distributions@.contains_key(request.uri@) ==> {
            let d = by_endpoint.endpoint_distributions@[request.uri@];
            &&& by_endpoint.expects(request, time) <==> d.expects(request, time)
            &&& by_endpoint.serves(request) <==> d.serves(request)
        },
        !by_endpoint.endpoint_distributions@.contains_key(request.uri@) ==> {
            let d = by_endpoint.default_distribution;
            &&& by_endpoint.expects(request, time) <==> d.expects(request, time)
            &&& by_endpoint.serves(request) <==> d.serves(request)
        },
        0 <= k < by_rule.rules@.len() && by_rule.rules@[k].condition.holds(request) && (forall|
            i: int,
        |
            0 <= i < k ==> !(#[trigger] by_rule.rules@[i]).condition.holds(request)) ==> {
            let d = by_rule.rules@[k].distribution;
            &&& by_rule.expects(request, time) <==> d.expects(request, time)
            &&& by_rule.serves(request) <==> d.serves(request)
        },
        (forall|i: int|
            0 <= i < by_rule.rules@.len() ==> !(#[trigger] by_rule.rules@[i]).condition.holds(
                request,
            )) ==> {
            let d = by_rule.default_distribution;
            &&& by_rule.expects(request, time) <==> d.expects(request, time)
            &&& by_rule.serves(request) <==> d.serves(request)
        },
{
    let rules = by_rule.rules@;
    if 0 <= k < rules.len() && rules[k].condition.holds(request) && (forall|i: int|
        0 <= i < k ==> !(#[trigger] rules[i]).condition.holds(request)) {
        assert(crate::dists::is_first_match(rules, request, k));
        assert(!crate::dists::matches_none(rules, request));
        assert forall|m: int| #[trigger] crate::dists::is_first_match(
            rules,
            request,
            m,
        ) implies m == k by {
            crate::dists::first_match_is_unique(rules, request, k, m);
        }
    }
    if crate::dists::matches_none(rules, request) {
        assert forall|m: int| !(#[trigger] crate::dists::is_first_match(rules, request, m)) by {}
    }
}

} // verus!
