//! Policies given by a table of decisions.

use crate::assoc_map::AssocMap;
use crate::event::FrontierEvent;
use crate::explore::choices::{copied_ids, find_id};
use crate::explore::frontier::record_frontier_choice;
use crate::explore::ready_task::record_ready_choice;
use crate::explore::schedule_explore::{DecisionKey, DecisionKeyView, DecisionKind, DecisionScript};
use crate::explore::trace::{TraceEventView, TraceRecorder};
use crate::frontier_policy::{frontier_seqs, EventFrontierPolicy};
use crate::ready_policy::{ready_ids, ReadyTaskPolicy, TaskId};
use crate::time::SimTime;
use vstd::prelude::*;

verus! {

/// How an alternative is picked. The weights are floating-point numbers, which are
/// held by their bits.
#[derive(Debug, PartialEq, Eq)]
pub enum ActionDistribution {
    Deterministic { chosen_id: u64 },
    Categorical { ids: Vec<u64>, weights: Vec<u64> },
}

pub enum ActionView {
    Deterministic { chosen_id: u64 },
    Categorical { ids: Seq<u64>, weights: Seq<u64> },
}

impl View for ActionDistribution {
    type V = ActionView;

    open spec fn view(&self) -> ActionView {
        match *self {
            ActionDistribution::Deterministic { chosen_id } => ActionView::Deterministic {
                chosen_id,
            },
            ActionDistribution::Categorical { ids, weights } => ActionView::Categorical {
                ids: ids@,
                weights: weights@,
            },
        }
    }
}

impl Clone for ActionDistribution {
    fn clone(&self) -> (copy: Self)
        ensures
            copy@ == self@,
    {
        match self {
            ActionDistribution::Deterministic { chosen_id } => ActionDistribution::Deterministic {
                chosen_id: *chosen_id,
            },
            ActionDistribution::Categorical { ids, weights } => ActionDistribution::Categorical {
                ids: copied_ids(ids),
                weights: copied_ids(weights),
            },
        }
    }
}

/// A table of decisions: for each decision, how an alternative is picked.
pub struct TablePolicy {
    table: AssocMap<DecisionKey, ActionDistribution>,
}

/// The views of the values of a map.
pub open spec fn action_views(m: Map<DecisionKeyView, ActionDistribution>) -> Map<
    DecisionKeyView,
    ActionView,
> {
    m.map_values(|a: ActionDistribution| a@)
}

impl View for TablePolicy {
    type V = Map<DecisionKeyView, ActionView>;

    closed spec fn view(&self) -> Map<DecisionKeyView, ActionView> {
        action_views(self.table@)
    }
}

/// What a table says of a decision.
#[derive(Debug, PartialEq, Eq)]
pub enum TableAction {
    /// Nothing, or nothing that can be used.
    Absent,
    /// One alternative.
    Chosen(u64),
    /// A draw among weighted alternatives.
    Draw { ids: Vec<u64>, weights: Vec<u64> },
}

pub enum TableActionView {
    Absent,
    Chosen(u64),
    Draw { ids: Seq<u64>, weights: Seq<u64> },
}

impl View for TableAction {
    type V = TableActionView;

    open spec fn view(&self) -> TableActionView {
        match *self {
            TableAction::Absent => TableActionView::Absent,
            TableAction::Chosen(id) => TableActionView::Chosen(id),
            TableAction::Draw { ids, weights } => TableActionView::Draw {
                ids: ids@,
                weights: weights@,
            },
        }
    }
}

/// What a table says of a decision. Weighted alternatives count only where there are
/// any, and as many weights.
pub open spec fn table_action(
    table: Map<DecisionKeyView, ActionView>,
    key: DecisionKeyView,
) -> TableActionView {
    if !table.contains_key(key) {
        TableActionView::Absent
    } else {
        match table[key] {
            ActionView::Deterministic { chosen_id } => TableActionView::Chosen(chosen_id),
            ActionView::Categorical { ids, weights } => if ids.len() == 0 || ids.len()
                != weights.len() {
                TableActionView::Absent
            } else {
                TableActionView::Draw { ids, weights }
            },
        }
    }
}

/// Whether all keys have their alternatives in normal form.
pub open spec fn keys_are_normal<V>(table: Map<DecisionKeyView, V>) -> bool {
    forall|k: DecisionKeyView| #[trigger] table.contains_key(k) ==> k.normal() == k
}

/// The script that a table stands for: its decisions with one alternative.
pub open spec fn table_script(table: Map<DecisionKeyView, ActionView>) -> Map<DecisionKeyView, u64> {
    Map::new(
        |k: DecisionKeyView| table.contains_key(k) && table[k] is Deterministic,
        |k: DecisionKeyView| table[k]->chosen_id,
    )
}

impl Default for TablePolicy {
    fn default() -> (policy: Self)
        ensures
            policy.wf(),
            policy@ == Map::<DecisionKeyView, ActionView>::empty(),
    {
        Self::new()
    }
}

impl TablePolicy {
    pub closed spec fn wf(&self) -> bool {
        self.table.wf() && keys_are_normal(self.table@)
    }

    pub fn new() -> (policy: Self)
        ensures
            policy.wf(),
            policy@ == Map::<DecisionKeyView, ActionView>::empty(),
    {
        let policy = TablePolicy { table: AssocMap::new() };
        proof {
            assert(policy@ =~= Map::<DecisionKeyView, ActionView>::empty());
        }
        policy
    }

    /// The number of decisions.
    pub fn len(&self) -> (len: usize)
        requires
            self.wf(),
        ensures
            len == self@.len(),
            self@.dom().finite(),
    {
        proof {
            assert(self@.dom() =~= self.table@.dom());
        }
        self.table.len()
    }

    pub fn is_empty(&self) -> (empty: bool)
        requires
            self.wf(),
        ensures
            empty == (self@.len() == 0),
    {
        self.len() == 0
    }

    /// How an alternative of a decision is picked.
    pub fn get(&self, key: &DecisionKey) -> (action: Option<&ActionDistribution>)
        requires
            self.wf(),
        ensures
            match action {
                Some(a) => self@.contains_key(key@.normal()) && a@ == self@[key@.normal()],
                None => !self@.contains_key(key@.normal()),
            },
    {
        let normal = key.clone().normalized();
        self.table.get(&normal)
    }

    /// Sets the alternative for a decision.
    pub fn set_deterministic(&mut self, key: DecisionKey, chosen_id: u64)
        requires
            old(self).wf(),
        ensures
            final(self).wf(),
            final(self)@ == old(self)@.insert(
                key@.normal(),
                ActionView::Deterministic { chosen_id },
            ),
    {
        self.set(key, ActionDistribution::Deterministic { chosen_id });
    }

    /// Sets how an alternative of a decision is picked.
    pub fn set(&mut self, key: DecisionKey, action: ActionDistribution)
        requires
            old(self).wf(),
        ensures
            final(self).wf(),
            final(self)@ == old(self)@.insert(key@.normal(), action@),
    {
        let normal = key.normalized();
        proof {
            crate::explore::choices::normal_form_is_idempotent(key@.choice_set);
            assert(normal@.normal() =~= normal@);
        }
        self.table.insert(normal, action);
        proof {
            assert(self@ =~= old(self)@.insert(key@.normal(), action@));
        }
    }

    /// Takes a decision out.
    pub fn remove(&mut self, key: &DecisionKey)
        requires
            old(self).wf(),
        ensures
            final(self).wf(),
            final(self)@ == old(self)@.remove(key@.normal()),
    {
        let normal = key.clone().normalized();
        self.table.remove(&normal);
        proof {
            assert(self@ =~= old(self)@.remove(key@.normal()));
        }
    }

    /// The keys of the decisions, each once.
    pub fn keys(&self) -> (keys: Vec<DecisionKey>)
        requires
            self.wf(),
        ensures
            forall|k: DecisionKeyView| #[trigger]
                self@.contains_key(k) <==> key_views(keys@).contains(k),
            key_views(keys@).no_duplicates(),
    {
        let mut keys: Vec<DecisionKey> = Vec::new();
        let mut i: usize = 0;
        while i < self.table.entry_count()
            invariant
                self.wf(),
                i <= self.table.entries().len(),
                keys@.len() == i,
                forall|k: int| 0 <= k < i ==> (#[trigger] keys@[k])@ == self.table.entries()[k].0@,
            decreases self.table.entries().len() - i,
        {
            keys.push(self.table.key_at(i).clone());
            i = i + 1;
        }
        proof {
            self.table.lemma_entries();
            let views = key_views(keys@);
            assert forall|k: DecisionKeyView| #[trigger]
                self@.contains_key(k) <==> views.contains(k) by {
                if self@.contains_key(k) {
                    assert(self.table@.contains_key(k));
                    let n = choose|n: int|
                        0 <= n < self.table.entries().len() && (
                        #[trigger] self.table.entries()[n]).0@ == k;
                    assert(views[n] == k);
                }
                if views.contains(k) {
                    let n = choose|n: int| 0 <= n < views.len() && views[n] == k;
                    assert(self.table.entries()[n].0@ == k);
                }
            }
            assert forall|a: int, b: int| 0 <= a < views.len() && 0 <= b < views.len() && a
                != b implies views[a] != views[b] by {
                if a < b {
                    assert(self.table.entries()[a].0@ != self.table.entries()[b].0@);
                } else {
                    assert(self.table.entries()[b].0@ != self.table.entries()[a].0@);
                }
            }
        }
        keys
    }

    /// A copy of the table.
    pub fn copied(&self) -> (copy: Self)
        requires
            self.wf(),
        ensures
            copy.wf(),
            copy@ == self@,
    {
        let mut copy = Self::new();
        let mut i: usize = 0;
        let ghost s = self.table.entries();
        proof {
            self.table.lemma_entries();
        }
        while i < self.table.entry_count()
            invariant
                self.wf(),
                copy.wf(),
                s == self.table.entries(),
                i <= s.len(),
                crate::assoc_map::distinct_keys(s),
                forall|k: DecisionKeyView| #[trigger]
                    copy@.contains_key(k) <==> exists|n: int|
                        0 <= n < i && (#[trigger] s[n]).0@ == k,
                forall|n: int| 0 <= n < i ==> copy@[(#[trigger] s[n]).0@] == s[n].1@,
                forall|n: int| 0 <= n < s.len() ==> (#[trigger] s[n]).0@.normal() == s[n].0@,
            decreases s.len() - i,
        {
            let key = self.table.key_at(i).clone();
            let action = self.table.value_at(i).clone();
            let ghost before = copy@;
            copy.set(key, action);
            proof {
                assert(s[i as int].0@.normal() == s[i as int].0@);
                assert forall|k: DecisionKeyView| #[trigger]
                    copy@.contains_key(k) <==> exists|n: int|
                        0 <= n < i + 1 && (#[trigger] s[n]).0@ == k by {
                    if copy@.contains_key(k) {
                        if before.contains_key(k) {
                            let n = choose|n: int| 0 <= n < i && (#[trigger] s[n]).0@ == k;
                            assert(s[n].0@ == k);
                        } else {
                            assert(s[i as int].0@ == k);
                        }
                    }
                    if exists|n: int| 0 <= n < i + 1 && (#[trigger] s[n]).0@ == k {
                        let n = choose|n: int| 0 <= n < i + 1 && (#[trigger] s[n]).0@ == k;
                        if n < i {
                            assert(before.contains_key(k));
                        }
                    }
                }
            }
            i = i + 1;
        }
        proof {
            self.table.lemma_entries();
            assert forall|k: DecisionKeyView| self@.contains_key(k) == copy@.contains_key(k) by {
                if self@.contains_key(k) {
                    assert(self.table@.contains_key(k));
                    let n = choose|n: int|
                        0 <= n < self.table.entries().len() && (
                        #[trigger] self.table.entries()[n]).0@ == k;
                    assert(s[n].0@ == k);
                }
                if copy@.contains_key(k) {
                    let n = choose|n: int| 0 <= n < i && (#[trigger] s[n]).0@ == k;
                    assert(self.table@.contains_key(self.table.entries()[n].0@));
                }
            }
            assert forall|k: DecisionKeyView| #[trigger] self@.contains_key(k) implies self@[k]
                == copy@[k] by {
                assert(self.table@.contains_key(k));
                let n = choose|n: int|
                    0 <= n < self.table.entries().len() && (
                    #[trigger] self.table.entries()[n]).0@ == k;
                assert(copy@[s[n].0@] == s[n].1@);
                assert(self.table@[self.table.entries()[n].0@] == self.table.entries()[n].1);
            }
            assert(copy@ =~= self@);
        }
        copy
    }

    /// The script that the table stands for.
    pub fn to_decision_script(&self) -> (script: DecisionScript)
        requires
            self.wf(),
        ensures
            script.wf(),
            script@ == table_script(self@),
    {
        let mut script = DecisionScript::new();
        let mut i: usize = 0;
        let ghost s = self.table.entries();
        proof {
            self.table.lemma_entries();
        }
        while i < self.table.entry_count()
            invariant
                self.wf(),
                script.wf(),
                s == self.table.entries(),
                i <= s.len(),
                crate::assoc_map::distinct_keys(s),
                forall|k: DecisionKeyView| #[trigger]
                    script@.contains_key(k) <==> exists|n: int|
                        0 <= n < i && (#[trigger] s[n]).0@ == k && s[n].1 is Deterministic,
                forall|n: int|
                    0 <= n < i && (#[trigger] s[n]).1 is Deterministic ==> script@[s[n].0@]
                        == s[n].1->chosen_id,
                forall|n: int| 0 <= n < s.len() ==> (#[trigger] s[n]).0@.normal() == s[n].0@,
            decreases s.len() - i,
        {
            let ghost before = script@;
            if let ActionDistribution::Deterministic { chosen_id } = self.table.value_at(i) {
                script.insert(self.table.key_at(i).clone(), *chosen_id);
            }
            proof {
                assert(s[i as int].0@.normal() == s[i as int].0@);
                assert forall|k: DecisionKeyView| #[trigger]
                    script@.contains_key(k) <==> exists|n: int|
                        0 <= n < i + 1 && (#[trigger] s[n]).0@ == k && s[n].1 is Deterministic by {
                    if script@.contains_key(k) {
                        if before.contains_key(k) {
                            let n = choose|n: int|
                                0 <= n < i && (#[trigger] s[n]).0@ == k && s[n].1 is Deterministic;
                            assert(s[n].0@ == k);
                        } else {
                            assert(s[i as int].0@ == k);
                        }
                    }
                    if exists|n: int|
                        0 <= n < i + 1 && (#[trigger] s[n]).0@ == k && s[n].1 is Deterministic {
                        let n = choose|n: int|
                            0 <= n < i + 1 && (#[trigger] s[n]).0@ == k && s[n].1 is Deterministic;
                        if n < i {
                            assert(before.contains_key(k));
                        }
                    }
                }
            }
            i = i + 1;
        }
        proof {
            self.table.lemma_entries();
            let t = table_script(self@);
            assert forall|k: DecisionKeyView| t.contains_key(k) == script@.contains_key(k) by {
                if t.contains_key(k) {
                    assert(self.table@.contains_key(k));
                    let n = choose|n: int|
                        0 <= n < self.table.entries().len() && (
                        #[trigger] self.table.entries()[n]).0@ == k;
                    assert(self.table@[self.table.entries()[n].0@] == self.table.entries()[n].1);
                    assert(s[n].0@ == k);
                }
                if script@.contains_key(k) {
                    let n = choose|n: int|
                        0 <= n < i && (#[trigger] s[n]).0@ == k && s[n].1 is Deterministic;
                    assert(self.table@[self.table.entries()[n].0@] == self.table.entries()[n].1);
                }
            }
            assert forall|k: DecisionKeyView| #[trigger] script@.contains_key(k) implies script@[k]
                == t[k] by {
                let n = choose|n: int|
                    0 <= n < i && (#[trigger] s[n]).0@ == k && s[n].1 is Deterministic;
                assert(self.table@[self.table.entries()[n].0@] == self.table.entries()[n].1);
            }
            assert(script@ =~= t);
        }
        script
    }

    /// What the table says of a choice among events.
    pub fn choose_frontier(&self, time_nanos: u64, ordinal: u64, frontier_seqs: &Vec<u64>) -> (action:
        TableAction)
        requires
            self.wf(),
        ensures
            action@ == table_action(
                self@,
                (DecisionKeyView {
                    kind: DecisionKind::Frontier,
                    time_nanos,
                    ordinal,
                    choice_set: frontier_seqs@,
                }).normal(),
            ),
    {
        let key = DecisionKey::new(
            DecisionKind::Frontier,
            time_nanos,
            ordinal,
            copied_ids(frontier_seqs),
        );
        self.choose_from_key(&key)
    }

    /// What the table says of a choice among ready tasks.
    pub fn choose_ready(&self, time_nanos: u64, ordinal: u64, ready_task_ids: &Vec<u64>) -> (action:
        TableAction)
        requires
            self.wf(),
        ensures
            action@ == table_action(
                self@,
                (DecisionKeyView {
                    kind: DecisionKind::TokioReady,
                    time_nanos,
                    ordinal,
                    choice_set: ready_task_ids@,
                }).normal(),
            ),
    {
        let key = DecisionKey::new(
            DecisionKind::TokioReady,
            time_nanos,
            ordinal,
            copied_ids(ready_task_ids),
        );
        self.choose_from_key(&key)
    }

    fn choose_from_key(&self, key: &DecisionKey) -> (action: TableAction)
        ensures
            action@ == table_action(self@, key@),
    {
        match self.table.get(key) {
            None => TableAction::Absent,
            Some(ActionDistribution::Deterministic { chosen_id }) => TableAction::Chosen(*chosen_id),
            Some(ActionDistribution::Categorical { ids, weights }) => {
                if ids.len() == 0 || ids.len() != weights.len() {
                    TableAction::Absent
                } else {
                    TableAction::Draw { ids: copied_ids(ids), weights: copied_ids(weights) }
                }
            },
        }
    }
}

/// The views of some keys.
pub open spec fn key_views(s: Seq<DecisionKey>) -> Seq<DecisionKeyView> {
    s.map_values(|k: DecisionKey| k@)
}

/// A policy that follows a table where it picks an alternative that there is,
/// another policy elsewhere, and records what is selected.
pub struct TableFrontierPolicy<P> {
    pub policy: TablePolicy,
    pub fallback: P,
    pub recorder: TraceRecorder,
    pub next_ordinal: u64,
}

impl<P> TableFrontierPolicy<P> {
    pub fn new(policy: TablePolicy, fallback: P, recorder: TraceRecorder) -> (p: Self)
        ensures
            p == (TableFrontierPolicy { policy, fallback, recorder, next_ordinal: 0 }),
    {
        TableFrontierPolicy { policy, fallback, recorder, next_ordinal: 0 }
    }

    /// What the table says of the next choice.
    pub fn next_action(&self, time: SimTime, frontier: &[FrontierEvent]) -> (action: TableAction)
        requires
            self.policy.wf(),
        ensures
            action@ == table_action(
                self.policy@,
                crate::explore::frontier::frontier_key(time, self.next_ordinal, frontier@),
            ),
    {
        self.policy.choose_frontier(time.0, self.next_ordinal, &frontier_seqs(frontier))
    }
}

impl<P: EventFrontierPolicy> TableFrontierPolicy<P> {
    /// Makes the next choice, given the alternative that the table picks. Without
    /// one, or where that is not there, the other policy selects.
    pub fn select_picked(
        &mut self,
        time: SimTime,
        frontier: &[FrontierEvent],
        picked: Option<u64>,
    ) -> (index: usize)
        ensures
            ({
                let position = match picked {
                    Some(seq) => crate::explore::choices::id_position(
                        crate::frontier_policy::seqs_of(frontier@),
                        seq,
                    ),
                    None => None,
                };
                match position {
                    Some(i) => index == i && final(self).fallback == old(self).fallback,
                    None => exists|chosen: usize| #[trigger]
                        P::selects(
                            old(self).fallback,
                            time,
                            frontier@,
                            final(self).fallback,
                            chosen,
                        ) && index == crate::explore::choices::bounded_index(
                            chosen,
                            frontier@.len(),
                        ),
                }
            }),
            final(self).policy == old(self).policy,
            final(self).next_ordinal == old(self).next_ordinal.wrapping_add(1),
            final(self).recorder@ == old(self).recorder@.with(
                TraceEventView::SchedulerDecision(
                    crate::explore::frontier::recorded_decision(time, frontier@, index),
                ),
            ),
    {
        self.next_ordinal = self.next_ordinal.wrapping_add(1);
        let position = match picked {
            Some(seq) => find_id(&frontier_seqs(frontier), seq),
            None => None,
        };
        let chosen = match position {
            Some(i) => i,
            None => self.fallback.select(time, frontier),
        };
        let index = record_frontier_choice(&mut self.recorder, time, frontier, chosen);
        proof {
            if position is None {
                assert(P::selects(old(self).fallback, time, frontier@, self.fallback, chosen));
            }
        }
        index
    }
}

/// A policy that follows a table where it picks a task that is ready, another policy
/// elsewhere, and records what is selected.
pub struct TableReadyTaskPolicy<P> {
    pub policy: TablePolicy,
    pub fallback: P,
    pub recorder: TraceRecorder,
    pub next_ordinal: u64,
}

impl<P> TableReadyTaskPolicy<P> {
    pub fn new(policy: TablePolicy, fallback: P, recorder: TraceRecorder) -> (p: Self)
        ensures
            p == (TableReadyTaskPolicy { policy, fallback, recorder, next_ordinal: 0 }),
    {
        TableReadyTaskPolicy { policy, fallback, recorder, next_ordinal: 0 }
    }

    /// What the table says of the next choice.
    pub fn next_action(&self, time: SimTime, ready: &[TaskId]) -> (action: TableAction)
        requires
            self.policy.wf(),
        ensures
            action@ == table_action(
                self.policy@,
                crate::explore::ready_task::ready_key(time, self.next_ordinal, ready@),
            ),
    {
        self.policy.choose_ready(time.0, self.next_ordinal, &ready_ids(ready))
    }
}

impl<P: ReadyTaskPolicy> TableReadyTaskPolicy<P> {
    /// Makes the next choice, given the task that the table picks. Without one, or
    /// where that is not ready, the other policy selects.
    pub fn select_picked(&mut self, time: SimTime, ready: &[TaskId], picked: Option<u64>) -> (index:
        usize)
        ensures
            ({
                let position = match picked {
                    Some(id) => crate::explore::choices::id_position(
                        crate::ready_policy::ids_of(ready@),
                        id,
                    ),
                    None => None,
                };
                match position {
                    Some(i) => index == i && final(self).fallback == old(self).fallback,
                    None => exists|chosen: usize| #[trigger]
                        P::selects(
                            old(self).fallback,
                            time,
                            ready@,
                            final(self).fallback,
                            chosen,
                        ) && index == crate::explore::choices::bounded_index(chosen, ready@.len()),
                }
            }),
            final(self).policy == old(self).policy,
            final(self).next_ordinal == old(self).next_ordinal.wrapping_add(1),
            final(self).recorder@ == old(self).recorder@.with(
                TraceEventView::AsyncRuntimeDecision(
                    crate::explore::ready_task::recorded_ready_decision(time, ready@, index),
                ),
            ),
    {
        self.next_ordinal = self.next_ordinal.wrapping_add(1);
        let position = match picked {
            Some(id) => find_id(&ready_ids(ready), id),
            None => None,
        };
        let chosen = match position {
            Some(i) => i,
            None => self.fallback.select(time, ready),
        };
        let index = record_ready_choice(&mut self.recorder, time, ready, chosen);
        proof {
            if position is None {
                assert(P::selects(old(self).fallback, time, ready@, self.fallback, chosen));
            }
        }
        index
    }
}

/// A decision that was set in a table is in its script, and one that was taken out is
/// not.
pub proof fn table_script_follows_the_table(
    table: Map<DecisionKeyView, ActionView>,
    key: DecisionKeyView,
    chosen_id: u64,
)
    ensures
        table_script(table.insert(key.normal(), ActionView::Deterministic { chosen_id }))
            == table_script(table).insert(key.normal(), chosen_id),
        table_script(table.remove(key.normal())) == table_script(table).remove(key.normal()),
{
    assert(table_script(table.insert(key.normal(), ActionView::Deterministic { chosen_id }))
        =~= table_script(table).insert(key.normal(), chosen_id));
    assert(table_script(table.remove(key.normal())) =~= table_script(table).remove(key.normal()));
}

/// What a table says of a decision: the fixed choice, or the alternatives to draw from with
/// their weights, all of them. It says nothing where it has no entry, or one that cannot be
/// drawn from.
pub proof fn table_says_what_it_holds(
    table: Map<DecisionKeyView, ActionView>,
    key: DecisionKeyView,
    chosen_id: u64,
    ids: Seq<u64>,
    weights: Seq<u64>,
)
    ensures
        !table.contains_key(key) ==> table_action(table, key) == TableActionView::Absent,
        table_action(table.insert(key, ActionView::Deterministic { chosen_id }), key)
            == TableActionView::Chosen(chosen_id),
        0 < ids.len() == weights.len() ==> table_action(
            table.insert(key, ActionView::Categorical { ids, weights }),
            key,
        ) == (TableActionView::Draw { ids, weights }),
        ids.len() == 0 || ids.len() != weights.len() ==> table_action(
            table.insert(key, ActionView::Categorical { ids, weights }),
            key,
        ) == TableActionView::Absent,
        table_script(table).contains_key(key) <==> table_action(table, key) is Chosen,
        table_script(table).contains_key(key) ==> table_action(table, key)
            == TableActionView::Chosen(table_script(table)[key]),
{
}

} // verus!
