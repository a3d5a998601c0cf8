//! Scheduling decisions in a form that can be scripted.

use crate::assoc_map::{AssocMap, MapKey};
use crate::explore::choices::{copied_ids, normalized_ids, same_ids};
use crate::explore::trace::{
    AsyncRuntimeDecision, AsyncRuntimeDecisionView, SchedulerDecision, SchedulerDecisionView, Trace,
    TraceEvent, TraceEventView,
};
use vstd::prelude::*;

verus! {

/// What kind of scheduling decision.
#[derive(Debug, Clone, Copy, PartialEq, Eq, Structural, Hash)]
pub enum DecisionKind {
    /// A choice among events that are due at the same time.
    Frontier,
    /// A choice among ready async tasks.
    TokioReady,
}

/// What identifies a scheduling decision in a run.
///
/// The number of the decision among those of its kind tells decisions apart that
/// have the same time and alternatives.
#[derive(Debug, PartialEq, Eq, Hash)]
pub struct DecisionKey {
    pub kind: DecisionKind,
    pub time_nanos: u64,
    pub ordinal: u64,
    pub choice_set: Vec<u64>,
}

#[verifier::ext_equal]
pub struct DecisionKeyView {
    pub kind: DecisionKind,
    pub time_nanos: u64,
    pub ordinal: u64,
    pub choice_set: Seq<u64>,
}

impl DecisionKeyView {
    /// The key with its alternatives in normal form.
    pub open spec fn normal(self) -> Self {
        DecisionKeyView {
            choice_set: crate::explore::choices::normal_form(self.choice_set),
            ..self
        }
    }

    /// Whether two keys are of the same kind and the same time.
    pub open spec fn same_moment(self, other: Self) -> bool {
        self.kind == other.kind && self.time_nanos == other.time_nanos
    }

    /// Whether two keys differ at most in their alternatives.
    pub open spec fn same_point(self, other: Self) -> bool {
        self.kind == other.kind && self.time_nanos == other.time_nanos && self.ordinal
            == other.ordinal
    }
}

impl View for DecisionKey {
    type V = DecisionKeyView;

    open spec fn view(&self) -> DecisionKeyView {
        DecisionKeyView {
            kind: self.kind,
            time_nanos: self.time_nanos,
            ordinal: self.ordinal,
            choice_set: self.choice_set@,
        }
    }
}

impl Clone for DecisionKey {
    fn clone(&self) -> (copy: Self)
        ensures
            copy@ == self@,
    {
        DecisionKey {
            kind: self.kind,
            time_nanos: self.time_nanos,
            ordinal: self.ordinal,
            choice_set: copied_ids(&self.choice_set),
        }
    }
}

impl MapKey for DecisionKey {
    fn same(&self, other: &Self) -> (same: bool) {
        self.kind == other.kind && self.time_nanos == other.time_nanos && self.ordinal
            == other.ordinal && same_ids(&self.choice_set, &other.choice_set)
    }
}

impl DecisionKey {
    /// Makes a key with its alternatives in normal form.
    pub fn new(kind: DecisionKind, time_nanos: u64, ordinal: u64, choice_set: Vec<u64>) -> (key:
        Self)
        ensures
            key@ == (DecisionKeyView { kind, time_nanos, ordinal, choice_set: choice_set@ }).normal(),
    {
        let mut key = DecisionKey { kind, time_nanos, ordinal, choice_set };
        key.normalize();
        key
    }

    /// Brings the alternatives into normal form.
    pub fn normalize(&mut self)
        ensures
            final(self)@ == old(self)@.normal(),
    {
        let normal = normalized_ids(&self.choice_set);
        self.choice_set = normal;
    }

    /// The key with its alternatives in normal form.
    pub fn normalized(self) -> (key: Self)
        ensures
            key@ == self@.normal(),
    {
        let mut key = self;
        key.normalize();
        key
    }
}

/// A choice together with where it comes from.
#[derive(Debug, Clone, Copy, PartialEq, Eq, Structural, Hash)]
pub enum DecisionChoice {
    ChosenSeq(u64),
    ChosenTask(u64),
}

impl DecisionChoice {
    pub open spec fn spec_id(self) -> u64 {
        match self {
            DecisionChoice::ChosenSeq(id) => id,
            DecisionChoice::ChosenTask(id) => id,
        }
    }

    pub fn id(self) -> (id: u64)
        ensures
            id == self.spec_id(),
    {
        match self {
            DecisionChoice::ChosenSeq(id) => id,
            DecisionChoice::ChosenTask(id) => id,
        }
    }
}

impl From<DecisionChoice> for u64 {
    fn from(value: DecisionChoice) -> (id: u64) {
        value.id()
    }
}

impl vstd::std_specs::convert::FromSpecImpl<DecisionChoice> for u64 {
    open spec fn obeys_from_spec() -> bool {
        true
    }

    open spec fn from_spec(value: DecisionChoice) -> u64 {
        value.spec_id()
    }
}

/// A decision of a trace.
#[derive(Debug, PartialEq, Eq)]
pub struct ObservedDecision {
    pub key: DecisionKey,
    /// The identifier of the alternative that was taken.
    pub chosen: u64,
}

#[verifier::ext_equal]
pub struct ObservedDecisionView {
    pub key: DecisionKeyView,
    pub chosen: u64,
}

impl View for ObservedDecision {
    type V = ObservedDecisionView;

    open spec fn view(&self) -> ObservedDecisionView {
        ObservedDecisionView { key: self.key@, chosen: self.chosen }
    }
}

impl Clone for ObservedDecision {
    fn clone(&self) -> (copy: Self)
        ensures
            copy@ == self@,
    {
        ObservedDecision { key: self.key.clone(), chosen: self.chosen }
    }
}

/// The views of some decisions.
pub open spec fn observed_views(s: Seq<ObservedDecision>) -> Seq<ObservedDecisionView> {
    s.map_values(|d: ObservedDecision| d@)
}

/// The choices to be made in a run.
pub struct DecisionScript {
    decisions: AssocMap<DecisionKey, u64>,
}

impl View for DecisionScript {
    type V = Map<DecisionKeyView, u64>;

    closed spec fn view(&self) -> Map<DecisionKeyView, u64> {
        self.decisions@
    }
}

/// The script of some decisions. Where a key occurs twice, the last choice counts.
pub open spec fn script_of(s: Seq<ObservedDecisionView>) -> Map<DecisionKeyView, u64>
    decreases s.len(),
{
    if s.len() == 0 {
        Map::empty()
    } else {
        script_of(s.drop_last()).insert(s.last().key.normal(), s.last().chosen)
    }
}

/// A decision that a script does not have, though it has another one of its kind and
/// time.
#[derive(Debug, PartialEq, Eq)]
pub struct DecisionKeyMismatch {
    pub kind: DecisionKind,
    pub time_nanos: u64,
    pub ordinal: u64,
    pub expected_choice_set: Vec<u64>,
    pub observed_choice_set: Vec<u64>,
}

impl Default for DecisionScript {
    fn default() -> (script: Self)
        ensures
            script.wf(),
            script@ == Map::<DecisionKeyView, u64>::empty(),
    {
        DecisionScript { decisions: AssocMap::new() }
    }
}

impl DecisionScript {
    pub closed spec fn wf(&self) -> bool {
        self.decisions.wf() && crate::explore::policy::keys_are_normal(self.decisions@)
    }

    /// A script has finitely many decisions, and each of them has its alternatives in
    /// normal form.
    pub proof fn decisions_are_normal(&self)
        requires
            self.wf(),
        ensures
            self@.dom().finite(),
            crate::explore::policy::keys_are_normal(self@),
    {
        self.decisions.lemma_is_finite();
    }

    pub fn new() -> (script: Self)
        ensures
            script.wf(),
            script@ == Map::<DecisionKeyView, u64>::empty(),
    {
        Self::default()
    }

    /// The script of some decisions.
    pub fn from_observed(decisions: &Vec<ObservedDecision>) -> (script: Self)
        ensures
            script.wf(),
            script@ == script_of(observed_views(decisions@)),
    {
        let mut script = Self::new();
        let mut i: usize = 0;
        while i < decisions.len()
            invariant
                script.wf(),
                i <= decisions@.len(),
                script@ == script_of(observed_views(decisions@.take(i as int))),
            decreases decisions@.len() - i,
        {
            script.insert(decisions[i].key.clone(), decisions[i].chosen);
            proof {
                let views = observed_views(decisions@.take(i + 1));
                assert(views.drop_last() =~= observed_views(decisions@.take(i as int)));
                assert(views.last() == decisions@[i as int]@);
            }
            i = i + 1;
        }
        proof {
            assert(decisions@.take(i as int) =~= decisions@);
        }
        script
    }

    /// Sets the choice for a decision, and gives the former one back.
    pub fn insert(&mut self, key: DecisionKey, chosen: u64) -> (former: Option<u64>)
        ensures
            old(self).wf() ==> final(self).wf(),
            final(self)@ == old(self)@.insert(key@.normal(), chosen),
            former == (if old(self)@.contains_key(key@.normal()) {
                Some(old(self)@[key@.normal()])
            } else {
                None
            }),
    {
        let normal = key.normalized();
        proof {
            crate::explore::choices::normal_form_is_idempotent(key@.choice_set);
        }
        let former = match self.decisions.get(&normal) {
            Some(chosen) => Some(*chosen),
            None => None,
        };
        self.decisions.insert(normal, chosen);
        former
    }

    /// The choice for a decision.
    pub fn get(&self, key: &DecisionKey) -> (chosen: Option<u64>)
        ensures
            chosen == (if self@.contains_key(key@.normal()) {
                Some(self@[key@.normal()])
            } else {
                None
            }),
    {
        let normal = key.clone().normalized();
        match self.decisions.get(&normal) {
            Some(chosen) => Some(*chosen),
            None => None,
        }
    }

    /// The choice for a decision, or an error where the script has none for it but has
    /// decisions of the same kind at the same time. The error names the alternatives of
    /// one of them: of one with the same ordinal, where there is one.
    pub fn match_decision(&self, key: &DecisionKey) -> (matched: Result<
        Option<u64>,
        DecisionKeyMismatch,
    >)
        ensures
            match matched {
                Ok(Some(chosen)) => self@.contains_key(key@.normal()) && self@[key@.normal()]
                    == chosen,
                Ok(None) => forall|k: DecisionKeyView| #[trigger]
                    self@.contains_key(k) ==> !k.same_moment(key@),
                Err(mismatch) => {
                    &&& !self@.contains_key(key@.normal())
                    &&& mismatch.kind == key.kind
                    &&& mismatch.time_nanos == key.time_nanos
                    &&& mismatch.ordinal == key.ordinal
                    &&& mismatch.observed_choice_set@ == key@.normal().choice_set
                    &&& exists|k: DecisionKeyView|
                        {
                            &&& #[trigger] self@.contains_key(k)
                            &&& k.same_moment(key@)
                            &&& k.choice_set == mismatch.expected_choice_set@
                            &&& k.ordinal == key.ordinal || forall|other: DecisionKeyView|
                                #[trigger]
                                self@.contains_key(other) ==> !other.same_point(key@)
                        }
                },
            },
    {
        let normal = key.clone().normalized();
        if let Some(chosen) = self.decisions.get(&normal) {
            return Ok(Some(*chosen));
        }
        let mut i: usize = 0;
        let mut other: Option<usize> = None;
        let len: usize = self.decisions.entry_count();
        while i < len
            invariant
                i <= len,
                len == self.decisions.entries().len(),
                normal@ == key@.normal(),
                !self@.contains_key(key@.normal()),
                forall|k: int|
                    0 <= k < i ==> !(#[trigger] self.decisions.entries()[k]).0@.same_point(key@),
                other is None ==> forall|k: int|
                    0 <= k < i ==> !(#[trigger] self.decisions.entries()[k]).0@.same_moment(key@),
                other matches Some(n) ==> n < len
                    && self.decisions.entries()[n as int].0@.same_moment(key@),
            decreases len - i,
        {
            let expected = self.decisions.key_at(i);
            if expected.kind == normal.kind && expected.time_nanos == normal.time_nanos {
                if expected.ordinal == normal.ordinal {
                    proof {
                        self.decisions.lemma_entries();
                        assert(self@.contains_key(self.decisions.entries()[i as int].0@));
                    }
                    return Err(
                        DecisionKeyMismatch {
                            kind: normal.kind,
                            time_nanos: normal.time_nanos,
                            ordinal: normal.ordinal,
                            expected_choice_set: copied_ids(&expected.choice_set),
                            observed_choice_set: normal.choice_set,
                        },
                    );
                }
                if other.is_none() {
                    other = Some(i);
                }
            }
            i = i + 1;
        }
        proof {
            self.decisions.lemma_entries();
            assert forall|k: DecisionKeyView| #[trigger] self@.contains_key(
                k,
            ) implies !k.same_point(key@) && (other is None ==> !k.same_moment(key@)) by {
                let s = self.decisions.entries();
                let n = choose|n: int|
                    0 <= n < s.len() && (#[trigger] self.decisions.entries()[n]).0@ == k;
                assert(!s[n].0@.same_point(key@));
            }
        }
        match other {
            None => Ok(None),
            Some(n) => {
                let expected = self.decisions.key_at(n);
                proof {
                    assert(self@.contains_key(self.decisions.entries()[n as int].0@));
                }
                Err(
                    DecisionKeyMismatch {
                        kind: normal.kind,
                        time_nanos: normal.time_nanos,
                        ordinal: normal.ordinal,
                        expected_choice_set: copied_ids(&expected.choice_set),
                        observed_choice_set: normal.choice_set,
                    },
                )
            },
        }
    }

    /// The number of decisions.
    pub fn len(&self) -> (len: usize)
        requires
            self.wf(),
        ensures
            len == self@.len(),
            self@.dom().finite(),
    {
        self.decisions.len()
    }

    pub fn is_empty(&self) -> (empty: bool)
        requires
            self.wf(),
        ensures
            empty == (self@.len() == 0),
            empty == (forall|k: DecisionKeyView| !self@.contains_key(#[trigger] k.normal())),
    {
        proof {
            empty_script_has_no_choices(*self);
        }
        self.decisions.len() == 0
    }
}

/// A script is empty exactly if it has a choice for no decision.
pub proof fn empty_script_has_no_choices(script: DecisionScript)
    requires
        script.wf(),
    ensures
        script@.len() == 0 <==> forall|k: DecisionKeyView|
            !script@.contains_key(#[trigger] k.normal()),
{
    script.decisions_are_normal();
    if script@.len() == 0 {
        assert(script@.dom() =~= Set::empty());
    } else {
        let k = script@.dom().choose();
        assert(script@.contains_key(k));
        assert(script@.contains_key(k.normal()));
    }
}

/// The alternatives of a choice among events: the recorded sequence numbers, or
/// those of the recorded descriptions.
pub open spec fn scheduler_alternatives(d: SchedulerDecisionView) -> Seq<u64> {
    if d.frontier_seqs.len() > 0 {
        d.frontier_seqs
    } else {
        d.frontier.map_values(|e: crate::explore::trace::FrontierEntryView| e.seq)
    }
}

/// Collects the alternatives of a choice among events.
pub fn scheduler_choice_set(decision: &SchedulerDecision) -> (ids: Vec<u64>)
    ensures
        ids@ == scheduler_alternatives(decision@),
{
    if decision.frontier_seqs.len() > 0 {
        return copied_ids(&decision.frontier_seqs);
    }
    let mut ids: Vec<u64> = Vec::new();
    let mut i: usize = 0;
    while i < decision.frontier.len()
        invariant
            i <= decision.frontier@.len(),
            ids@.len() == i,
            forall|k: int| 0 <= k < i ==> ids@[k] == (#[trigger] decision.frontier@[k]).seq,
        decreases decision.frontier@.len() - i,
    {
        ids.push(decision.frontier[i].seq);
        i = i + 1;
    }
    proof {
        assert(ids@ =~= scheduler_alternatives(decision@));
    }
    ids
}

/// Collects the alternatives of a choice among ready tasks.
pub fn ready_task_choice_set(decision: &AsyncRuntimeDecision) -> (ids: Vec<u64>)
    ensures
        ids@ == decision.ready_task_ids@,
{
    copied_ids(&decision.ready_task_ids)
}

/// The alternative that a choice among events has taken.
pub open spec fn scheduler_chosen(d: SchedulerDecisionView) -> u64 {
    match d.chosen_seq {
        Some(seq) => seq,
        None => scheduler_alternatives(d)[d.chosen_index as int],
    }
}

/// The alternative that a choice among ready tasks has taken.
pub open spec fn ready_chosen(d: AsyncRuntimeDecisionView) -> u64 {
    match d.chosen_task_id {
        Some(id) => id,
        None => d.ready_task_ids[d.chosen_index as int],
    }
}

/// Whether a trace entry names the alternative that was taken, by its identifier or
/// by an index that there is.
pub open spec fn names_its_choice(e: TraceEventView) -> bool {
    match e {
        TraceEventView::SchedulerDecision(d) => d.chosen_seq is Some || d.chosen_index
            < scheduler_alternatives(d).len(),
        TraceEventView::AsyncRuntimeDecision(d) => d.chosen_task_id is Some || d.chosen_index
            < d.ready_task_ids.len(),
        _ => true,
    }
}

/// The number of decisions of a kind.
pub open spec fn decision_count(events: Seq<TraceEventView>, kind: DecisionKind) -> nat
    decreases events.len(),
{
    if events.len() == 0 {
        0
    } else {
        let front = decision_count(events.drop_last(), kind);
        match (events.last(), kind) {
            (TraceEventView::SchedulerDecision(_), DecisionKind::Frontier) => front + 1,
            (TraceEventView::AsyncRuntimeDecision(_), DecisionKind::TokioReady) => front + 1,
            _ => front,
        }
    }
}

/// The decision that a trace entry stands for, after those in front of it.
pub open spec fn decision_of(front: Seq<TraceEventView>, e: TraceEventView) -> Option<
    ObservedDecisionView,
> {
    match e {
        TraceEventView::SchedulerDecision(d) => Some(
            ObservedDecisionView {
                key: (DecisionKeyView {
                    kind: DecisionKind::Frontier,
                    time_nanos: d.time_nanos,
                    ordinal: decision_count(front, DecisionKind::Frontier) as u64,
                    choice_set: scheduler_alternatives(d),
                }).normal(),
                chosen: scheduler_chosen(d),
            },
        ),
        TraceEventView::AsyncRuntimeDecision(d) => Some(
            ObservedDecisionView {
                key: (DecisionKeyView {
                    kind: DecisionKind::TokioReady,
                    time_nanos: d.time_nanos,
                    ordinal: decision_count(front, DecisionKind::TokioReady) as u64,
                    choice_set: d.ready_task_ids,
                }).normal(),
                chosen: ready_chosen(d),
            },
        ),
        _ => None,
    }
}

/// The decisions of a trace, in their order.
pub open spec fn decisions_of(events: Seq<TraceEventView>) -> Seq<ObservedDecisionView>
    decreases events.len(),
{
    if events.len() == 0 {
        Seq::empty()
    } else {
        let front = decisions_of(events.drop_last());
        match decision_of(events.drop_last(), events.last()) {
            Some(d) => front.push(d),
            None => front,
        }
    }
}

/// The alternative at an index.
fn choice_from_index(choice_set: &Vec<u64>, chosen_index: usize) -> (id: u64)
    requires
        chosen_index < choice_set@.len(),
    ensures
        id == choice_set@[chosen_index as int],
{
    choice_set[chosen_index]
}

/// Whether every entry of a trace names the alternative that was taken, so that its
/// decisions can be extracted.
pub fn names_its_choices(trace: &Trace) -> (all: bool)
    ensures
        all == (forall|i: int|
            0 <= i < trace@.events.len() ==> names_its_choice(#[trigger] trace@.events[i])),
{
    let ghost events = trace@.events;
    let mut i: usize = 0;
    while i < trace.events.len()
        invariant
            events == trace@.events,
            events.len() == trace.events@.len(),
            i <= trace.events@.len(),
            forall|k: int| 0 <= k < i ==> names_its_choice(#[trigger] events[k]),
        decreases trace.events@.len() - i,
    {
        proof {
            assert(events[i as int] == trace.events@[i as int]@);
        }
        let named: bool = match &trace.events[i] {
            TraceEvent::SchedulerDecision(d) => d.chosen_seq.is_some() || d.chosen_index
                < scheduler_choice_set(d).len(),
            TraceEvent::AsyncRuntimeDecision(d) => d.chosen_task_id.is_some() || d.chosen_index
                < d.ready_task_ids.len(),
            _ => true,
        };
        if !named {
            return false;
        }
        i = i + 1;
    }
    true
}

/// Extracts the decisions of a trace.
pub fn extract_decisions(trace: &Trace) -> (decisions: Vec<ObservedDecision>)
    requires
        forall|i: int| 0 <= i < trace@.events.len() ==> names_its_choice(#[trigger] trace@.events[i]),
    ensures
        observed_views(decisions@) == decisions_of(trace@.events),
{
    let mut out: Vec<ObservedDecision> = Vec::new();
    let mut frontier_ordinal: u64 = 0;
    let mut ready_ordinal: u64 = 0;
    let ghost events = trace@.events;
    let mut i: usize = 0;
    while i < trace.events.len()
        invariant
            events == trace@.events,
            events.len() == trace.events@.len(),
            forall|k: int| 0 <= k < events.len() ==> names_its_choice(#[trigger] events[k]),
            i <= trace.events@.len(),
            frontier_ordinal == decision_count(events.take(i as int), DecisionKind::Frontier),
            ready_ordinal == decision_count(events.take(i as int), DecisionKind::TokioReady),
            frontier_ordinal <= i,
            ready_ordinal <= i,
            observed_views(out@) == decisions_of(events.take(i as int)),
        decreases trace.events@.len() - i,
    {
        let ghost before = out@;
        proof {
            assert(events.take(i + 1).drop_last() =~= events.take(i as int));
            assert(events.take(i + 1).last() == events[i as int]);
            assert(events[i as int] == trace.events@[i as int]@);
            assert(names_its_choice(events[i as int]));
        }
        match &trace.events[i] {
            TraceEvent::SchedulerDecision(d) => {
                let choice_set = scheduler_choice_set(d);
                let chosen: u64 = match d.chosen_seq {
                    Some(seq) => seq,
                    None => choice_from_index(&choice_set, d.chosen_index),
                };
                let key = DecisionKey::new(
                    DecisionKind::Frontier,
                    d.time_nanos,
                    frontier_ordinal,
                    choice_set,
                );
                frontier_ordinal = frontier_ordinal + 1;
                let observed = ObservedDecision { key, chosen };
                out.push(observed);
                proof {
                    assert(observed_views(out@) =~= observed_views(before).push(observed@));
                }
            },
            TraceEvent::AsyncRuntimeDecision(d) => {
                let choice_set = ready_task_choice_set(d);
                let chosen: u64 = match d.chosen_task_id {
                    Some(id) => id,
                    None => choice_from_index(&choice_set, d.chosen_index),
                };
                let key = DecisionKey::new(
                    DecisionKind::TokioReady,
                    d.time_nanos,
                    ready_ordinal,
                    choice_set,
                );
                ready_ordinal = ready_ordinal + 1;
                let observed = ObservedDecision { key, chosen };
                out.push(observed);
                proof {
                    assert(observed_views(out@) =~= observed_views(before).push(observed@));
                }
            },
            _ => {},
        }
        i = i + 1;
    }
    proof {
        assert(events.take(i as int) =~= events);
    }
    out
}

/// A choice that was set for a decision is found under every key with the same
/// point and the same alternatives, whatever their order and repetition; the
/// choices for other decisions stay as they are.
pub proof fn script_returns_what_was_inserted(
    script: Map<DecisionKeyView, u64>,
    key: DecisionKeyView,
    chosen: u64,
    other: DecisionKeyView,
)
    ensures
        ({
            let after = script.insert(key.normal(), chosen);
            let same = key.same_point(other) && forall|id: u64|
                key.choice_set.contains(id) <==> other.choice_set.contains(id);
            &&& same ==> after.contains_key(other.normal()) && after[other.normal()] == chosen
            &&& !same ==> after.contains_key(other.normal()) == script.contains_key(other.normal())
            &&& !same && script.contains_key(other.normal()) ==> after[other.normal()]
                == script[other.normal()]
        }),
{
    crate::explore::choices::normal_form_forgets_order_and_repetition(
        key.choice_set,
        other.choice_set,
    );
    let same = key.same_point(other) && forall|id: u64|
        key.choice_set.contains(id) <==> other.choice_set.contains(id);
    if same {
        assert(key.normal() =~= other.normal());
    } else {
        assert(key.normal() != other.normal());
    }
}

proof fn lemma_decision_count_monotone(events: Seq<TraceEventView>, kind: DecisionKind, n: int)
    requires
        0 <= n <= events.len(),
    ensures
        decision_count(events.take(n), kind) <= decision_count(events, kind),
        decision_count(events, kind) <= events.len(),
    decreases events.len(),
{
    if n == events.len() {
        assert(events.take(n) =~= events);
        if events.len() > 0 {
            lemma_decision_count_monotone(events.drop_last(), kind, n - 1);
        }
    } else {
        lemma_decision_count_monotone(events.drop_last(), kind, n);
        assert(events.drop_last().take(n) =~= events.take(n));
    }
}

/// Every decision of a trace has a number below the count of its kind.
proof fn lemma_decision_ordinals(events: Seq<TraceEventView>, k: int)
    requires
        0 <= k < decisions_of(events).len(),
        events.len() <= u64::MAX,
    ensures
        decisions_of(events)[k].key.ordinal < decision_count(
            events,
            decisions_of(events)[k].key.kind,
        ),
    decreases events.len(),
{
    let front = events.drop_last();
    lemma_decision_count_monotone(events, decisions_of(events)[k].key.kind, events.len() - 1);
    assert(events.take(events.len() - 1) =~= front);
    if k < decisions_of(front).len() {
        lemma_decision_ordinals(front, k);
    } else {
        lemma_decision_count_monotone(front, DecisionKind::Frontier, 0);
        lemma_decision_count_monotone(front, DecisionKind::TokioReady, 0);
    }
}

/// No two decisions of a trace have the same key.
pub proof fn decisions_have_distinct_keys(events: Seq<TraceEventView>, i: int, j: int)
    requires
        0 <= i < j < decisions_of(events).len(),
        events.len() <= u64::MAX,
    ensures
        !decisions_of(events)[i].key.same_point(decisions_of(events)[j].key),
    decreases events.len(),
{
    let front = events.drop_last();
    if j < decisions_of(front).len() {
        decisions_have_distinct_keys(front, i, j);
    } else {
        lemma_decision_ordinals(front, i);
        lemma_decision_count_monotone(front, DecisionKind::Frontier, 0);
        lemma_decision_count_monotone(front, DecisionKind::TokioReady, 0);
    }
}

proof fn lemma_decision_is_normal(events: Seq<TraceEventView>, k: int)
    requires
        0 <= k < decisions_of(events).len(),
    ensures
        decisions_of(events)[k].key.normal() == decisions_of(events)[k].key,
    decreases events.len(),
{
    let front = events.drop_last();
    if k < decisions_of(front).len() {
        lemma_decision_is_normal(front, k);
    } else {
        match events.last() {
            TraceEventView::SchedulerDecision(d) => {
                crate::explore::choices::normal_form_is_idempotent(scheduler_alternatives(d));
            },
            TraceEventView::AsyncRuntimeDecision(d) => {
                crate::explore::choices::normal_form_is_idempotent(d.ready_task_ids);
            },
            _ => {},
        }
    }
}

/// The script of the decisions of a trace holds each of them: under its key stands
/// the alternative that was taken.
pub proof fn script_of_a_trace_repeats_its_choices(events: Seq<TraceEventView>, k: int)
    requires
        0 <= k < decisions_of(events).len(),
        events.len() <= u64::MAX,
    ensures
        script_of(decisions_of(events)).contains_key(decisions_of(events)[k].key),
        script_of(decisions_of(events))[decisions_of(events)[k].key] == decisions_of(events)[k].chosen,
{
    lemma_script_holds(events, decisions_of(events).len() as int, k);
    assert(decisions_of(events).take(decisions_of(events).len() as int) =~= decisions_of(events));
}

proof fn lemma_script_holds(events: Seq<TraceEventView>, n: int, k: int)
    requires
        0 <= k < n <= decisions_of(events).len(),
        events.len() <= u64::MAX,
    ensures
        script_of(decisions_of(events).take(n)).contains_key(decisions_of(events)[k].key),
        script_of(decisions_of(events).take(n))[decisions_of(events)[k].key] == decisions_of(
            events,
        )[k].chosen,
    decreases n,
{
    let all = decisions_of(events);
    let part = all.take(n);
    assert(part.drop_last() =~= all.take(n - 1));
    assert(part.last() == all[n - 1]);
    lemma_decision_is_normal(events, n - 1);
    if k < n - 1 {
        lemma_script_holds(events, n - 1, k);
        decisions_have_distinct_keys(events, k, n - 1);
    }
}

} // verus!
