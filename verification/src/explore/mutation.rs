//! Changing one decision of a table at random.

use crate::explore::policy::{ActionDistribution, ActionView, TablePolicy};
use crate::explore::schedule_explore::{DecisionKey, DecisionKeyView, DecisionKind};
use crate::rng::draw_item;
use rand::rngs::StdRng;
use vstd::prelude::*;

verus! {

/// The lexicographic order of sequences of the same length.
pub open spec fn lexicographic(a: Seq<u64>, b: Seq<u64>) -> bool
    decreases a.len(),
{
    if a.len() == 0 || b.len() == 0 {
        false
    } else if a[0] != b[0] {
        a[0] < b[0]
    } else {
        lexicographic(a.drop_first(), b.drop_first())
    }
}

/// The order of decisions of one kind and time: by their number, by how many
/// alternatives there are, and by the alternatives.
pub open spec fn key_before(a: DecisionKeyView, b: DecisionKeyView) -> bool {
    if a.ordinal != b.ordinal {
        a.ordinal < b.ordinal
    } else if a.choice_set.len() != b.choice_set.len() {
        a.choice_set.len() < b.choice_set.len()
    } else {
        lexicographic(a.choice_set, b.choice_set)
    }
}

fn is_lexicographic(a: &Vec<u64>, b: &Vec<u64>) -> (r: bool)
    requires
        a@.len() == b@.len(),
    ensures
        r == lexicographic(a@, b@),
{
    let mut i: usize = 0;
    proof {
        assert(a@.skip(0) =~= a@);
        assert(b@.skip(0) =~= b@);
    }
    while i < a.len()
        invariant
            i <= a@.len(),
            a@.len() == b@.len(),
            lexicographic(a@, b@) == lexicographic(a@.skip(i as int), b@.skip(i as int)),
        decreases a@.len() - i,
    {
        if a[i] != b[i] {
            return a[i] < b[i];
        }
        proof {
            assert(a@.skip(i as int).drop_first() =~= a@.skip(i + 1));
            assert(b@.skip(i as int).drop_first() =~= b@.skip(i + 1));
        }
        i = i + 1;
    }
    false
}

fn is_key_before(a: &DecisionKey, b: &DecisionKey) -> (r: bool)
    ensures
        r == key_before(a@, b@),
{
    if a.ordinal != b.ordinal {
        a.ordinal < b.ordinal
    } else if a.choice_set.len() != b.choice_set.len() {
        a.choice_set.len() < b.choice_set.len()
    } else {
        is_lexicographic(&a.choice_set, &b.choice_set)
    }
}

/// Whether a decision has more than one alternative.
pub open spec fn has_alternatives(k: DecisionKeyView) -> bool {
    k.choice_set.len() > 1
}

/// Whether a decision with alternatives is among the earliest of them, and a choice
/// among ready tasks where there is one.
pub open spec fn is_candidate(known: Seq<DecisionKeyView>, k: DecisionKeyView) -> bool {
    &&& has_alternatives(k)
    &&& forall|i: int|
        0 <= i < known.len() && has_alternatives(#[trigger] known[i]) ==> k.time_nanos
            <= known[i].time_nanos
    &&& k.kind == DecisionKind::TokioReady || forall|i: int|
        0 <= i < known.len() && has_alternatives(#[trigger] known[i]) && known[i].time_nanos
            == k.time_nanos ==> known[i].kind != DecisionKind::TokioReady
}

/// Where a decision goes among ordered ones: before the first one that it precedes.
pub open spec fn key_place(s: Seq<DecisionKeyView>, k: DecisionKeyView) -> int
    decreases s.len(),
{
    if s.len() == 0 || key_before(k, s[0]) {
        0
    } else {
        1 + key_place(s.drop_first(), k)
    }
}

/// The candidates among some decisions, in their order.
pub open spec fn candidates_of(known: Seq<DecisionKeyView>, s: Seq<DecisionKeyView>) -> Seq<
    DecisionKeyView,
>
    decreases s.len(),
{
    if s.len() == 0 {
        Seq::empty()
    } else {
        let front = candidates_of(known, s.drop_last());
        if is_candidate(known, s.last()) {
            front.insert(key_place(front, s.last()), s.last())
        } else {
            front
        }
    }
}

/// The decisions of which one is changed.
pub open spec fn mutation_pool(known: Seq<DecisionKeyView>) -> Seq<DecisionKeyView> {
    candidates_of(known, known)
}

/// The alternative that a table has for a decision, and the first one where it has
/// none.
pub open spec fn current_choice(table: Map<DecisionKeyView, ActionView>, k: DecisionKeyView) -> u64 {
    if table.contains_key(k.normal()) && table[k.normal()] is Deterministic {
        table[k.normal()]->chosen_id
    } else {
        k.choice_set[0]
    }
}

/// The other alternatives of a decision.
pub open spec fn other_choices(k: DecisionKeyView, current: u64) -> Seq<u64> {
    ids_other_than(k.choice_set, current)
}

/// Some alternatives without one of them.
pub open spec fn ids_other_than(ids: Seq<u64>, current: u64) -> Seq<u64> {
    ids.filter(|id: u64| id != current)
}

/// Whether one table follows from another by giving one known decision an alternative
/// of its own that it did not have.
pub open spec fn changes_decision(
    table: Map<DecisionKeyView, ActionView>,
    known: Seq<DecisionKeyView>,
    key: DecisionKeyView,
    chosen_id: u64,
    after: Map<DecisionKeyView, ActionView>,
) -> bool {
    &&& known.contains(key)
    &&& key.choice_set.contains(chosen_id)
    &&& chosen_id != current_choice(table, key)
    &&& after == table.insert(key.normal(), ActionView::Deterministic { chosen_id })
}

/// The table that a mutation gives, if any, and the generator that it leaves behind.
pub open spec fn mutated(
    table: Map<DecisionKeyView, ActionView>,
    known: Seq<DecisionKeyView>,
    rng: StdRng,
) -> (Option<Map<DecisionKeyView, ActionView>>, StdRng) {
    let pool = mutation_pool(known);
    if pool.len() == 0 {
        (None, rng)
    } else {
        let first = crate::rng::rng_position(rng, pool.len());
        let key = pool[first.0 as int];
        let others = other_choices(key, current_choice(table, key));
        if others.len() == 0 {
            (None, first.1)
        } else {
            let second = crate::rng::rng_position(first.1, others.len());
            (
                Some(
                    table.insert(
                        key.normal(),
                        ActionView::Deterministic { chosen_id: others[second.0 as int] },
                    ),
                ),
                second.1,
            )
        }
    }
}

/// Finds the earliest decision with alternatives, and whether there is a choice among
/// ready tasks at that time.
fn earliest(known: &Vec<DecisionKey>) -> (found: Option<(u64, bool)>)
    ensures
        ({
            let views = crate::explore::policy::key_views(known@);
            match found {
                None => forall|i: int|
                    0 <= i < views.len() ==> !has_alternatives(#[trigger] views[i]),
                Some((time, ready)) => {
                    &&& exists|i: int|
                        0 <= i < views.len() && has_alternatives(#[trigger] views[i])
                            && views[i].time_nanos == time
                    &&& forall|i: int|
                        0 <= i < views.len() && has_alternatives(#[trigger] views[i]) ==> time
                            <= views[i].time_nanos
                    &&& ready <==> exists|i: int|
                        0 <= i < views.len() && has_alternatives(#[trigger] views[i])
                            && views[i].time_nanos == time && views[i].kind
                            == DecisionKind::TokioReady
                },
            }
        }),
{
    let ghost views = crate::explore::policy::key_views(known@);
    let mut found: Option<(u64, bool)> = None;
    let mut k: usize = 0;
    while k < known.len()
        invariant
            k <= known@.len(),
            views == crate::explore::policy::key_views(known@),
            match found {
                None => forall|i: int| 0 <= i < k ==> !has_alternatives(#[trigger] views[i]),
                Some((time, ready)) => {
                    &&& exists|i: int|
                        0 <= i < k && has_alternatives(#[trigger] views[i]) && views[i].time_nanos
                            == time
                    &&& forall|i: int|
                        0 <= i < k && has_alternatives(#[trigger] views[i]) ==> time
                            <= views[i].time_nanos
                    &&& ready <==> exists|i: int|
                        0 <= i < k && has_alternatives(#[trigger] views[i]) && views[i].time_nanos
                            == time && views[i].kind == DecisionKind::TokioReady
                },
            },
        decreases known@.len() - k,
    {
        let key = &known[k];
        proof {
            assert(views[k as int] == key@);
        }
        if key.choice_set.len() > 1 {
            let is_ready = key.kind == DecisionKind::TokioReady;
            found = match found {
                None => Some((key.time_nanos, is_ready)),
                Some((time, ready)) => {
                    if key.time_nanos < time {
                        Some((key.time_nanos, is_ready))
                    } else if key.time_nanos == time {
                        Some((time, ready || is_ready))
                    } else {
                        Some((time, ready))
                    }
                },
            };
        }
        k = k + 1;
    }
    found
}

proof fn lemma_key_place(s: Seq<DecisionKeyView>, k: DecisionKeyView, p: int)
    requires
        0 <= p <= s.len(),
        forall|i: int| 0 <= i < p ==> !key_before(k, #[trigger] s[i]),
        p < s.len() ==> key_before(k, s[p]),
    ensures
        key_place(s, k) == p,
    decreases s.len(),
{
    if p > 0 {
        assert(!key_before(k, s[0]));
        let rest = s.drop_first();
        assert forall|i: int| 0 <= i < p - 1 implies !key_before(k, #[trigger] rest[i]) by {
            assert(rest[i] == s[i + 1]);
        }
        lemma_key_place(rest, k, p - 1);
    }
}

/// Collects the decisions of which one is changed.
fn collect_pool(known: &Vec<DecisionKey>) -> (pool: Vec<DecisionKey>)
    ensures
        crate::explore::policy::key_views(pool@) == mutation_pool(
            crate::explore::policy::key_views(known@),
        ),
{
    let ghost views = crate::explore::policy::key_views(known@);
    let found = earliest(known);
    let mut pool: Vec<DecisionKey> = Vec::new();
    let mut k: usize = 0;
    proof {
        assert(crate::explore::policy::key_views(pool@) =~= Seq::empty());
    }
    while k < known.len()
        invariant
            k <= known@.len(),
            views == crate::explore::policy::key_views(known@),
            match found {
                None => forall|i: int|
                    0 <= i < views.len() ==> !has_alternatives(#[trigger] views[i]),
                Some((time, ready)) => {
                    &&& exists|i: int|
                        0 <= i < views.len() && has_alternatives(#[trigger] views[i])
                            && views[i].time_nanos == time
                    &&& forall|i: int|
                        0 <= i < views.len() && has_alternatives(#[trigger] views[i]) ==> time
                            <= views[i].time_nanos
                    &&& ready <==> exists|i: int|
                        0 <= i < views.len() && has_alternatives(#[trigger] views[i])
                            && views[i].time_nanos == time && views[i].kind
                            == DecisionKind::TokioReady
                },
            },
            crate::explore::policy::key_views(pool@) == candidates_of(views, views.take(k as int)),
        decreases known@.len() - k,
    {
        let key = &known[k];
        let candidate = match found {
            None => false,
            Some((time, ready)) => key.choice_set.len() > 1 && key.time_nanos == time && (!ready
                || key.kind == DecisionKind::TokioReady),
        };
        proof {
            assert(views[k as int] == key@);
            assert(views.take(k + 1).drop_last() =~= views.take(k as int));
            assert(views.take(k + 1).last() == key@);
            assert(candidate == is_candidate(views, key@));
        }
        if candidate {
            let ghost before = crate::explore::policy::key_views(pool@);
            let mut p: usize = 0;
            while p < pool.len() && !is_key_before(key, &pool[p])
                invariant
                    p <= pool@.len(),
                    before == crate::explore::policy::key_views(pool@),
                    forall|i: int| 0 <= i < p ==> !key_before(key@, #[trigger] before[i]),
                decreases pool@.len() - p,
            {
                proof {
                    assert(before[p as int] == pool@[p as int]@);
                }
                p = p + 1;
            }
            proof {
                if p < pool@.len() {
                    assert(before[p as int] == pool@[p as int]@);
                }
                lemma_key_place(before, key@, p as int);
            }
            let copy = key.clone();
            pool.insert(p, copy);
            proof {
                assert(crate::explore::policy::key_views(pool@) =~= before.insert(p as int, key@));
            }
        }
        k = k + 1;
    }
    proof {
        assert(views.take(k as int) =~= views);
    }
    pool
}

/// Collects the other alternatives of a decision.
fn collect_others(ids: &Vec<u64>, current: u64) -> (others: Vec<u64>)
    ensures
        others@ == ids_other_than(ids@, current),
{
    let mut others: Vec<u64> = Vec::new();
    let mut i: usize = 0;
    proof {
        reveal(Seq::filter);
    }
    while i < ids.len()
        invariant
            i <= ids@.len(),
            others@ == ids_other_than(ids@.take(i as int), current),
        decreases ids@.len() - i,
    {
        let id: u64 = ids[i];
        proof {
            reveal(Seq::filter);
            assert(ids@.take(i + 1).drop_last() =~= ids@.take(i as int));
            assert(ids@.take(i + 1).last() == id);
        }
        if id != current {
            others.push(id);
        }
        i = i + 1;
    }
    proof {
        assert(ids@.take(i as int) =~= ids@);
    }
    others
}

/// The numbers below a length.
fn numbers_below(len: usize) -> (numbers: Vec<u64>)
    ensures
        numbers@.len() == len,
        forall|i: int| 0 <= i < len ==> numbers@[i] == i,
{
    let mut numbers: Vec<u64> = Vec::new();
    let mut i: usize = 0;
    while i < len
        invariant
            i <= len,
            numbers@.len() == i,
            forall|k: int| 0 <= k < i ==> numbers@[k] == k,
        decreases len - i,
    {
        numbers.push(i as u64);
        i = i + 1;
    }
    numbers
}

/// Changes one decision of a table: one of the earliest known ones with alternatives
/// gets another alternative, both picked at random. Choices among ready tasks go
/// before those among events.
pub fn mutate_one(base: &TablePolicy, known_keys: &Vec<DecisionKey>, rng: &mut StdRng) -> (next:
    Option<TablePolicy>)
    requires
        base.wf(),
    ensures
        ({
            let (table, rng_after) = mutated(
                base@,
                crate::explore::policy::key_views(known_keys@),
                *old(rng),
            );
            &&& *final(rng) == rng_after
            &&& next is Some <==> table is Some
            &&& next is Some ==> next->0.wf() && next->0@ == table->0
        }),
        next is Some ==> exists|key: DecisionKeyView, chosen_id: u64|
            changes_decision(
                base@,
                crate::explore::policy::key_views(known_keys@),
                key,
                chosen_id,
                next->0@,
            ),
{
    let pool = collect_pool(known_keys);
    let ghost views = crate::explore::policy::key_views(pool@);
    proof {
        assert(views.len() == pool@.len());
    }
    let numbers = numbers_below(pool.len());
    let index = match draw_item(rng, numbers.as_slice()) {
        None => {
            return None;
        },
        Some(i) => i as usize,
    };
    let key = pool[index].clone();
    proof {
        assert(views[index as int] == key@);
        lemma_pool_has_alternatives(
            crate::explore::policy::key_views(known_keys@),
            crate::explore::policy::key_views(known_keys@),
            index as int,
        );
    }
    let current: u64 = match base.get(&key) {
        Some(ActionDistribution::Deterministic { chosen_id }) => *chosen_id,
        _ => key.choice_set[0],
    };
    let others = collect_others(&key.choice_set, current);
    proof {
        assert(current == current_choice(base@, key@));
        assert(others@ == other_choices(key@, current));
    }
    let chosen_id: u64 = match draw_item(rng, others.as_slice()) {
        None => {
            return None;
        },
        Some(id) => id,
    };
    let ghost changed = key@;
    proof {
        let second = choose|i: int| 0 <= i < others@.len() && others@[i] == chosen_id;
        lemma_filter_excludes(key.choice_set@, current, second);
    }
    let mut next = base.copied();
    next.set_deterministic(key, chosen_id);
    proof {
        assert(changes_decision(
            base@,
            crate::explore::policy::key_views(known_keys@),
            changed,
            chosen_id,
            next@,
        ));
    }
    Some(next)
}

proof fn lemma_pool_has_alternatives(known: Seq<DecisionKeyView>, s: Seq<DecisionKeyView>, i: int)
    requires
        0 <= i < candidates_of(known, s).len(),
    ensures
        is_candidate(known, candidates_of(known, s)[i]),
        s.contains(candidates_of(known, s)[i]),
    decreases s.len(),
{
    let front = candidates_of(known, s.drop_last());
    let last = s.last();
    lemma_key_place_range(front, last);
    let p = key_place(front, last);
    let all = candidates_of(known, s);
    if is_candidate(known, last) {
        if i < p {
            assert(all[i] == front[i]);
            lemma_pool_has_alternatives(known, s.drop_last(), i);
        } else if i > p {
            assert(all[i] == front[i - 1]);
            lemma_pool_has_alternatives(known, s.drop_last(), i - 1);
        } else {
            assert(s[s.len() - 1] == last);
        }
    } else {
        lemma_pool_has_alternatives(known, s.drop_last(), i);
    }
    if all[i] != last {
        let k = choose|k: int| 0 <= k < s.drop_last().len() && s.drop_last()[k] == all[i];
        assert(s[k] == all[i]);
    } else {
        assert(s[s.len() - 1] == last);
    }
}

proof fn lemma_key_place_range(s: Seq<DecisionKeyView>, k: DecisionKeyView)
    ensures
        0 <= key_place(s, k) <= s.len(),
    decreases s.len(),
{
    if s.len() > 0 && !key_before(k, s[0]) {
        lemma_key_place_range(s.drop_first(), k);
    }
}

proof fn lemma_pool_holds_candidates(
    known: Seq<DecisionKeyView>,
    s: Seq<DecisionKeyView>,
    k: DecisionKeyView,
)
    requires
        s.contains(k),
        is_candidate(known, k),
    ensures
        candidates_of(known, s).contains(k),
    decreases s.len(),
{
    let front = candidates_of(known, s.drop_last());
    let last = s.last();
    let all = candidates_of(known, s);
    lemma_key_place_range(front, last);
    let p = key_place(front, last);
    if k == last {
        assert(all[p] == k);
    } else {
        let n = choose|n: int| 0 <= n < s.len() && s[n] == k;
        assert(s.drop_last()[n] == k);
        lemma_pool_holds_candidates(known, s.drop_last(), k);
        let m = choose|m: int| 0 <= m < front.len() && front[m] == k;
        if is_candidate(known, last) {
            if m < p {
                assert(all[m] == k);
            } else {
                assert(all[m + 1] == k);
            }
        }
    }
}

/// A decision can be changed exactly if it is a known candidate.
pub proof fn mutation_pool_holds_the_candidates(known: Seq<DecisionKeyView>, k: DecisionKeyView)
    ensures
        mutation_pool(known).contains(k) <==> known.contains(k) && is_candidate(known, k),
{
    if mutation_pool(known).contains(k) {
        let i = choose|i: int| 0 <= i < mutation_pool(known).len() && mutation_pool(known)[i] == k;
        lemma_pool_has_alternatives(known, known, i);
    }
    if known.contains(k) && is_candidate(known, k) {
        lemma_pool_holds_candidates(known, known, k);
    }
}

proof fn lemma_filter_excludes(s: Seq<u64>, current: u64, i: int)
    requires
        0 <= i < ids_other_than(s, current).len(),
    ensures
        ids_other_than(s, current)[i] != current,
        s.contains(ids_other_than(s, current)[i]),
    decreases s.len(),
{
    reveal(Seq::filter);
    let kept = ids_other_than(s, current);
    if s.len() > 0 {
        let front = s.drop_last();
        if i < ids_other_than(front, current).len() {
            lemma_filter_excludes(front, current, i);
            let k = choose|k: int| 0 <= k < front.len() && front[k] == kept[i];
            assert(s[k] == kept[i]);
        } else {
            assert(s[s.len() - 1] == kept[i]);
        }
    }
}

proof fn lemma_lexicographic_is_total(a: Seq<u64>, b: Seq<u64>)
    requires
        a.len() == b.len(),
        a != b,
    ensures
        lexicographic(a, b) || lexicographic(b, a),
    decreases a.len(),
{
    if a.len() == 0 {
        assert(a =~= b);
    } else if a[0] == b[0] {
        if a.drop_first() == b.drop_first() {
            assert forall|i: int| 0 <= i < a.len() implies a[i] == b[i] by {
                if i > 0 {
                    assert(a.drop_first()[i - 1] == b.drop_first()[i - 1]);
                }
            }
            assert(a =~= b);
        }
        lemma_lexicographic_is_total(a.drop_first(), b.drop_first());
    }
}

proof fn lemma_lexicographic_is_transitive(a: Seq<u64>, b: Seq<u64>, c: Seq<u64>)
    requires
        a.len() == b.len() == c.len(),
        lexicographic(a, b),
        lexicographic(b, c),
    ensures
        lexicographic(a, c),
    decreases a.len(),
{
    if a.len() > 0 && a[0] == b[0] && b[0] == c[0] {
        lemma_lexicographic_is_transitive(a.drop_first(), b.drop_first(), c.drop_first());
    }
}

proof fn lemma_lexicographic_is_irreflexive(a: Seq<u64>)
    ensures
        !lexicographic(a, a),
    decreases a.len(),
{
    if a.len() > 0 {
        lemma_lexicographic_is_irreflexive(a.drop_first());
    }
}

proof fn lemma_key_before_is_transitive(a: DecisionKeyView, b: DecisionKeyView, c: DecisionKeyView)
    requires
        key_before(a, b),
        key_before(b, c),
    ensures
        key_before(a, c),
{
    if a.ordinal == c.ordinal && a.choice_set.len() == c.choice_set.len() {
        lemma_lexicographic_is_transitive(a.choice_set, b.choice_set, c.choice_set);
    }
}

/// Whether decisions are in their order, each once.
pub open spec fn keys_in_order(s: Seq<DecisionKeyView>) -> bool {
    forall|i: int, j: int| 0 <= i < j < s.len() ==> key_before(#[trigger] s[i], #[trigger] s[j])
}

/// Among candidates, each that differs from another is before or after it.
proof fn lemma_candidates_compare(known: Seq<DecisionKeyView>, a: DecisionKeyView, b: DecisionKeyView)
    requires
        known.contains(a),
        known.contains(b),
        is_candidate(known, a),
        is_candidate(known, b),
        a != b,
    ensures
        key_before(a, b) || key_before(b, a),
{
    let i = choose|i: int| 0 <= i < known.len() && known[i] == a;
    let j = choose|j: int| 0 <= j < known.len() && known[j] == b;
    assert(has_alternatives(known[i]) && has_alternatives(known[j]));
    assert(a.time_nanos == b.time_nanos);
    assert(a.kind == b.kind);
    if a.ordinal == b.ordinal && a.choice_set.len() == b.choice_set.len() {
        if a.choice_set == b.choice_set {
            assert(a =~= b);
        }
        lemma_lexicographic_is_total(a.choice_set, b.choice_set);
    }
}

proof fn lemma_place_is_right(s: Seq<DecisionKeyView>, k: DecisionKeyView)
    ensures
        forall|i: int| 0 <= i < key_place(s, k) ==> !key_before(k, #[trigger] s[i]),
        key_place(s, k) < s.len() ==> key_before(k, s[key_place(s, k)]),
    decreases s.len(),
{
    lemma_key_place_range(s, k);
    if s.len() > 0 && !key_before(k, s[0]) {
        let rest = s.drop_first();
        lemma_place_is_right(rest, k);
        lemma_key_place_range(rest, k);
        assert forall|i: int| 0 <= i < key_place(s, k) implies !key_before(k, #[trigger] s[i]) by {
            if i > 0 {
                assert(rest[i - 1] == s[i]);
            }
        }
        if key_place(s, k) < s.len() {
            assert(rest[key_place(rest, k)] == s[key_place(s, k)]);
        }
    }
}

proof fn lemma_candidates_are_in_order(known: Seq<DecisionKeyView>, s: Seq<DecisionKeyView>)
    requires
        forall|i: int, j: int| 0 <= i < j < s.len() ==> #[trigger] s[i] != #[trigger] s[j],
        forall|i: int| 0 <= i < s.len() ==> known.contains(#[trigger] s[i]),
    ensures
        keys_in_order(candidates_of(known, s)),
    decreases s.len(),
{
    if s.len() > 0 {
        let rest = s.drop_last();
        let last = s.last();
        assert forall|i: int| 0 <= i < rest.len() implies known.contains(#[trigger] rest[i]) by {
            assert(rest[i] == s[i]);
        }
        lemma_candidates_are_in_order(known, rest);
        let front = candidates_of(known, rest);
        let all = candidates_of(known, s);
        if is_candidate(known, last) {
            lemma_key_place_range(front, last);
            lemma_place_is_right(front, last);
            let p = key_place(front, last);
            assert(known.contains(s[s.len() - 1]));
            assert forall|i: int| 0 <= i < front.len() implies key_before(#[trigger] front[i], last)
                || key_before(last, front[i]) by {
                lemma_pool_has_alternatives(known, rest, i);
                let n = choose|n: int| 0 <= n < rest.len() && rest[n] == front[i];
                assert(s[n] == front[i]);
                assert(s[n] != s[s.len() - 1]);
                lemma_candidates_compare(known, front[i], last);
            }
            assert forall|i: int, j: int| 0 <= i < j < all.len() implies key_before(
                #[trigger] all[i],
                #[trigger] all[j],
            ) by {
                if j < p {
                    assert(all[i] == front[i] && all[j] == front[j]);
                } else if j == p {
                    assert(all[i] == front[i]);
                    assert(!key_before(last, front[i]));
                } else if i < p {
                    assert(all[i] == front[i] && all[j] == front[j - 1]);
                } else if i == p {
                    assert(all[j] == front[j - 1]);
                    if j - 1 > p {
                        assert(key_before(front[p], front[j - 1]));
                        lemma_key_before_is_transitive(last, front[p], front[j - 1]);
                    }
                } else {
                    assert(all[i] == front[i - 1] && all[j] == front[j - 1]);
                }
            }
        }
    }
}

proof fn lemma_order_is_unique(a: Seq<DecisionKeyView>, b: Seq<DecisionKeyView>)
    requires
        keys_in_order(a),
        keys_in_order(b),
        forall|k: DecisionKeyView| a.contains(k) <==> b.contains(k),
    ensures
        a == b,
    decreases a.len(),
{
    if a.len() == 0 {
        if b.len() > 0 {
            assert(b.contains(b[0]));
        }
        assert(a =~= b);
    } else {
        assert(a.contains(a[0]));
        let j = choose|j: int| 0 <= j < b.len() && b[j] == a[0];
        assert(b.contains(b[0]));
        let i = choose|i: int| 0 <= i < a.len() && a[i] == b[0];
        lemma_lexicographic_is_irreflexive(a[0].choice_set);
        if j > 0 {
            assert(key_before(b[0], b[j]));
            if i > 0 {
                assert(key_before(a[0], a[i]));
                lemma_key_before_is_transitive(a[0], b[0], a[0]);
            }
            assert(false);
        }
        let x = a.drop_first();
        let y = b.drop_first();
        assert forall|k: DecisionKeyView| x.contains(k) <==> y.contains(k) by {
            lemma_lexicographic_is_irreflexive(k.choice_set);
            if x.contains(k) {
                let n = choose|n: int| 0 <= n < x.len() && x[n] == k;
                assert(a[n + 1] == k);
                assert(key_before(a[0], a[n + 1]));
                assert(a.contains(k));
                let m = choose|m: int| 0 <= m < b.len() && b[m] == k;
                assert(m > 0);
                assert(y[m - 1] == k);
            }
            if y.contains(k) {
                let n = choose|n: int| 0 <= n < y.len() && y[n] == k;
                assert(b[n + 1] == k);
                assert(key_before(b[0], b[n + 1]));
                assert(b.contains(k));
                let m = choose|m: int| 0 <= m < a.len() && a[m] == k;
                assert(m > 0);
                assert(x[m - 1] == k);
            }
        }
        assert forall|i: int, j: int| 0 <= i < j < x.len() implies key_before(
            #[trigger] x[i],
            #[trigger] x[j],
        ) by {
            assert(x[i] == a[i + 1] && x[j] == a[j + 1]);
        }
        assert forall|i: int, j: int| 0 <= i < j < y.len() implies key_before(
            #[trigger] y[i],
            #[trigger] y[j],
        ) by {
            assert(y[i] == b[i + 1] && y[j] == b[j + 1]);
        }
        lemma_order_is_unique(x, y);
        assert forall|n: int| 0 <= n < a.len() implies a[n] == b[n] by {
            if n > 0 {
                assert(x[n - 1] == y[n - 1]);
            }
        }
        assert(a.len() == x.len() + 1 && b.len() == y.len() + 1);
        assert(a =~= b);
    }
}

/// What a mutation does is the same in whatever order the known decisions are listed.
pub proof fn mutation_ignores_the_order_of_decisions(
    table: Map<DecisionKeyView, ActionView>,
    known: Seq<DecisionKeyView>,
    other: Seq<DecisionKeyView>,
    rng: StdRng,
)
    requires
        forall|i: int, j: int| 0 <= i < j < known.len() ==> #[trigger] known[i] != #[trigger] known[j],
        forall|i: int, j: int| 0 <= i < j < other.len() ==> #[trigger] other[i] != #[trigger] other[j],
        forall|k: DecisionKeyView| #[trigger] known.contains(k) <==> other.contains(k),
    ensures
        mutation_pool(known) == mutation_pool(other),
        mutated(table, known, rng) == mutated(table, other, rng),
{
    let a = mutation_pool(known);
    let b = mutation_pool(other);
    assert forall|i: int| 0 <= i < known.len() implies known.contains(#[trigger] known[i]) by {}
    assert forall|i: int| 0 <= i < other.len() implies other.contains(#[trigger] other[i]) by {}
    lemma_candidates_are_in_order(known, known);
    lemma_candidates_are_in_order(other, other);
    assert forall|k: DecisionKeyView| a.contains(k) <==> b.contains(k) by {
        mutation_pool_holds_the_candidates(known, k);
        mutation_pool_holds_the_candidates(other, k);
        lemma_same_candidates(known, other, k);
        assert(known.contains(k) <==> other.contains(k));
    }
    lemma_order_is_unique(a, b);
}

proof fn lemma_same_candidates(
    known: Seq<DecisionKeyView>,
    other: Seq<DecisionKeyView>,
    k: DecisionKeyView,
)
    requires
        forall|k: DecisionKeyView| #[trigger] known.contains(k) <==> other.contains(k),
    ensures
        is_candidate(known, k) <==> is_candidate(other, k),
{
    assert forall|i: int| 0 <= i < known.len() implies exists|j: int|
        0 <= j < other.len() && #[trigger] other[j] == #[trigger] known[i] by {
        assert(known.contains(known[i]));
    }
    assert forall|j: int| 0 <= j < other.len() implies exists|i: int|
        0 <= i < known.len() && #[trigger] known[i] == #[trigger] other[j] by {
        assert(known.contains(other[j]));
    }
}

/// The decisions that can be changed are the earliest known ones that had alternatives, and
/// of those the ones between ready tasks, where there are any. None of these is left out.
pub proof fn earliest_decisions_can_be_changed(known: Seq<DecisionKeyView>, k: DecisionKeyView)
    requires
        known.contains(k),
    ensures
        mutation_pool(known).contains(k) <==> {
            &&& k.choice_set.len() >= 2
            &&& forall|o: DecisionKeyView| #[trigger]
                known.contains(o) && o.choice_set.len() >= 2 ==> o.time_nanos >= k.time_nanos
            &&& k.kind == DecisionKind::Frontier ==> !exists|o: DecisionKeyView|
                {
                    &&& #[trigger] known.contains(o)
                    &&& o.choice_set.len() >= 2
                    &&& o.time_nanos == k.time_nanos
                    &&& o.kind == DecisionKind::TokioReady
                }
        },
{
    mutation_pool_holds_the_candidates(known, k);
    if is_candidate(known, k) {
        assert forall|o: DecisionKeyView| #[trigger]
            known.contains(o) && o.choice_set.len() >= 2 implies o.time_nanos >= k.time_nanos by {
            let i = choose|i: int| 0 <= i < known.len() && known[i] == o;
            assert(has_alternatives(known[i]));
        }
        if k.kind == DecisionKind::Frontier {
            assert forall|o: DecisionKeyView| #[trigger]
                known.contains(o) && o.choice_set.len() >= 2 && o.time_nanos == k.time_nanos implies
                o.kind != DecisionKind::TokioReady by {
                let i = choose|i: int| 0 <= i < known.len() && known[i] == o;
                assert(has_alternatives(known[i]));
            }
        }
    }
    assert forall|i: int| 0 <= i < known.len() implies known.contains(#[trigger] known[i]) by {}
}

/// Whether a list of numbers comes before another one of the same length: at the first place
/// where they differ it has the smaller number.
pub open spec fn smaller_where_they_differ(a: Seq<u64>, b: Seq<u64>, d: int) -> bool {
    &&& 0 <= d < a.len()
    &&& a[d] < b[d]
    &&& forall|e: int| 0 <= e < d ==> a[e] == b[e]
}

proof fn lemma_first_difference(a: Seq<u64>, b: Seq<u64>) -> (d: int)
    requires
        a.len() == b.len(),
        lexicographic(a, b),
    ensures
        smaller_where_they_differ(a, b, d),
    decreases a.len(),
{
    if a[0] != b[0] {
        0
    } else {
        let rest = lemma_first_difference(a.drop_first(), b.drop_first());
        assert forall|e: int| 0 <= e < rest + 1 implies a[e] == b[e] by {
            if e > 0 {
                assert(a.drop_first()[e - 1] == b.drop_first()[e - 1]);
            }
        }
        rest + 1
    }
}

/// The decisions that can be changed stand in the order in which they were made; those of the
/// same number by how many alternatives they had, and then by the smaller alternative.
pub proof fn changeable_decisions_stand_in_order(known: Seq<DecisionKeyView>, i: int, j: int)
    requires
        forall|i: int, j: int| 0 <= i < j < known.len() ==> #[trigger] known[i] != #[trigger] known[j],
        0 <= i < j < mutation_pool(known).len(),
    ensures
        ({
            let a = mutation_pool(known)[i];
            let b = mutation_pool(known)[j];
            &&& a.ordinal <= b.ordinal
            &&& a.ordinal == b.ordinal ==> a.choice_set.len() <= b.choice_set.len()
            &&& a.ordinal == b.ordinal && a.choice_set.len() == b.choice_set.len() ==> exists|
                d: int,
            | #[trigger]
                smaller_where_they_differ(a.choice_set, b.choice_set, d)
        }),
{
    assert forall|i: int| 0 <= i < known.len() implies known.contains(#[trigger] known[i]) by {}
    lemma_candidates_are_in_order(known, known);
    let a = mutation_pool(known)[i];
    let b = mutation_pool(known)[j];
    assert(key_before(a, b));
    if a.ordinal == b.ordinal && a.choice_set.len() == b.choice_set.len() {
        let d = lemma_first_difference(a.choice_set, b.choice_set);
    }
}

/// Every alternative but the current one can be chosen instead, and no other number can.
pub proof fn every_other_alternative_can_be_chosen(k: DecisionKeyView, current: u64, id: u64)
    ensures
        other_choices(k, current).contains(id) <==> k.choice_set.contains(id) && id != current,
        other_choices(k, current).len() <= k.choice_set.len(),
{
    broadcast use vstd::seq_lib::group_filter_ensures;

    let others = other_choices(k, current);
    k.choice_set.lemma_filter_len(|id: u64| id != current);
    if others.contains(id) {
        let i = choose|i: int| 0 <= i < others.len() && others[i] == id;
        lemma_filter_excludes(k.choice_set, current, i);
    }
    if k.choice_set.contains(id) && id != current {
        let i = choose|i: int| 0 <= i < k.choice_set.len() && k.choice_set[i] == id;
        assert(k.choice_set.filter(|id: u64| id != current).contains(k.choice_set[i]));
    }
}

/// The current choice of a decision is the one that the table fixes, and the first
/// alternative where the table fixes none.
pub proof fn current_choice_is_that_of_the_table(
    table: Map<DecisionKeyView, ActionView>,
    k: DecisionKeyView,
    chosen_id: u64,
)
    ensures
        current_choice(
            table.insert(k.normal(), ActionView::Deterministic { chosen_id }),
            k,
        ) == chosen_id,
        !table.contains_key(k.normal()) || !(table[k.normal()] is Deterministic)
            ==> current_choice(table, k) == k.choice_set[0],
{
}

/// A change of a table draws one of the decisions that can be changed, from all of them, and
/// then one of its other alternatives, from all of those. It fixes that one, and leaves the
/// table as it is otherwise. There is no change exactly where there is nothing to draw from.
pub proof fn change_draws_a_decision_and_an_alternative(
    table: Map<DecisionKeyView, ActionView>,
    known: Seq<DecisionKeyView>,
    rng: StdRng,
    other: DecisionKeyView,
)
    ensures
        ({
            let pool = mutation_pool(known);
            let (changed, left) = mutated(table, known, rng);
            let (place, between) = crate::rng::rng_position(rng, pool.len());
            let key = pool[place as int];
            let others = other_choices(key, current_choice(table, key));
            let (choice, last) = crate::rng::rng_position(between, others.len());
            let n = key.normal();
            &&& changed is None <==> pool.len() == 0 || others.len() == 0
            &&& pool.len() == 0 ==> left == rng
            &&& pool.len() > 0 && others.len() == 0 ==> left == between
            &&& changed matches Some(after) ==> {
                &&& left == last
                &&& after.contains_key(n)
                &&& after[n] == (ActionView::Deterministic { chosen_id: others[choice as int] })
                &&& other != n ==> (after.contains_key(other) <==> table.contains_key(other))
                &&& other != n && table.contains_key(other) ==> after[other] == table[other]
            }
        }),
{
}

} // verus!
