//! Recording random draws, and repeating those of a trace.

use crate::explore::trace::{
    DrawValue, DrawValueView, RandomDraw, RandomDrawView, Trace, TraceEvent, TraceEventView,
    TraceRecorder,
};
use crate::randomness::DrawSite;
use std::collections::VecDeque;
use vstd::prelude::*;

verus! {

/// The entry that a draw of a floating-point number is recorded as.
pub open spec fn recorded_draw(site: DrawSite, bits: u64) -> RandomDrawView {
    RandomDrawView {
        time_nanos: None,
        tag: site.tag@,
        site_id: site.site_id,
        value: DrawValueView::F64(bits),
    }
}

/// Records the draw of a floating-point number, given by its bits.
pub fn record_draw(recorder: &mut TraceRecorder, site: DrawSite, bits: u64)
    ensures
        final(recorder)@ == old(recorder)@.with(
            TraceEventView::RandomDraw(recorded_draw(site, bits)),
        ),
{
    recorder.record(
        TraceEvent::RandomDraw(
            RandomDraw {
                time_nanos: None,
                tag: site.tag.to_owned(),
                site_id: site.site_id,
                value: DrawValue::F64(bits),
            },
        ),
    );
}

/// The random draws of a trace, in their order.
pub open spec fn random_draws(events: Seq<TraceEventView>) -> Seq<RandomDrawView>
    decreases events.len(),
{
    if events.len() == 0 {
        Seq::empty()
    } else {
        let front = random_draws(events.drop_last());
        match events.last() {
            TraceEventView::RandomDraw(d) => front.push(d),
            _ => front,
        }
    }
}

/// The views of some draws.
pub open spec fn draw_views(s: Seq<RandomDraw>) -> Seq<RandomDrawView> {
    s.map_values(|d: RandomDraw| d@)
}

fn collect_draws(events: &Vec<TraceEvent>) -> (draws: VecDeque<RandomDraw>)
    ensures
        draw_views(draws@) == random_draws(crate::explore::trace::event_views(events@)),
{
    let ghost views = crate::explore::trace::event_views(events@);
    let mut draws: VecDeque<RandomDraw> = VecDeque::new();
    let mut i: usize = 0;
    proof {
        assert(draw_views(draws@) =~= Seq::empty());
    }
    while i < events.len()
        invariant
            i <= events@.len(),
            views == crate::explore::trace::event_views(events@),
            draw_views(draws@) == random_draws(views.take(i as int)),
        decreases events@.len() - i,
    {
        let ghost before = draws@;
        proof {
            assert(views.take(i + 1).drop_last() =~= views.take(i as int));
            assert(views.take(i + 1).last() == events@[i as int]@);
        }
        if let TraceEvent::RandomDraw(d) = &events[i] {
            let draw = d.clone();
            draws.push_back(draw);
            proof {
                assert(draw_views(draws@) =~= draw_views(before).push(draw@));
            }
        }
        i = i + 1;
    }
    proof {
        assert(views.take(i as int) =~= views);
    }
    draws
}

/// Why a draw cannot be repeated.
#[derive(Debug, Clone, Copy, PartialEq, Eq, Structural)]
pub enum ReplayDrawError {
    /// There are no draws left.
    Exhausted,
    /// The next draw was made at another site.
    SiteMismatch { expected: u64, recorded: u64 },
    /// The next draw is not a floating-point number.
    UnexpectedValue,
}

/// Repeats the random draws of a trace, and records them again.
pub struct ReplayRandomProvider {
    draws: VecDeque<RandomDraw>,
    recorder: TraceRecorder,
}

impl ReplayRandomProvider {
    /// The draws that are left.
    pub closed spec fn left(&self) -> Seq<RandomDrawView> {
        draw_views(self.draws@)
    }

    /// What was recorded.
    pub closed spec fn recorded(&self) -> crate::explore::trace::TraceView {
        self.recorder@
    }

    pub fn new(prefix: &Trace, recorder: TraceRecorder) -> (provider: Self)
        ensures
            provider.left() == random_draws(prefix@.events),
            provider.recorded() == recorder@,
    {
        ReplayRandomProvider { draws: collect_draws(&prefix.events), recorder }
    }

    /// Whether there are draws left.
    pub fn has_draws(&self) -> (has: bool)
        ensures
            has == (self.left().len() > 0),
    {
        self.draws.len() > 0
    }

    /// Tells whether the next draw can be repeated at a site.
    pub fn check_next(&self, site: DrawSite) -> (checked: Result<(), ReplayDrawError>)
        ensures
            checked == next_draw_check(self.left(), site),
    {
        if self.draws.len() == 0 {
            return Err(ReplayDrawError::Exhausted);
        }
        let next = &self.draws[0];
        proof {
            assert(self.left()[0] == next@);
        }
        if next.site_id != site.site_id {
            return Err(
                ReplayDrawError::SiteMismatch { expected: site.site_id, recorded: next.site_id },
            );
        }
        match next.value {
            DrawValue::F64(_) => Ok(()),
            _ => Err(ReplayDrawError::UnexpectedValue),
        }
    }

    /// Repeats the next draw at a site.
    pub fn sample_exp_seconds(&mut self, site: DrawSite) -> (bits: u64)
        requires
            next_draw_check(old(self).left(), site) is Ok,
        ensures
            old(self).left()[0].value == DrawValueView::F64(bits),
            final(self).left() == old(self).left().drop_first(),
            final(self).recorded() == old(self).recorded().with(
                TraceEventView::RandomDraw(recorded_draw(site, bits)),
            ),
    {
        let mut bits: u64 = 0;
        if let Some(next) = self.draws.pop_front() {
            proof {
                assert(old(self).left()[0] == next@);
                assert(self.left() =~= old(self).left().drop_first());
            }
            if let DrawValue::F64(b) = next.value {
                bits = b;
            }
        }
        record_draw(&mut self.recorder, site, bits);
        bits
    }

    /// Records a draw that was made elsewhere.
    pub fn record(&mut self, site: DrawSite, bits: u64)
        ensures
            final(self).left() == old(self).left(),
            final(self).recorded() == old(self).recorded().with(
                TraceEventView::RandomDraw(recorded_draw(site, bits)),
            ),
    {
        record_draw(&mut self.recorder, site, bits);
    }

    /// The recording.
    pub fn into_recorder(self) -> (recorder: TraceRecorder)
        ensures
            recorder@ == self.recorded(),
    {
        self.recorder
    }
}

/// Whether the next draw can be repeated at a site.
pub open spec fn next_draw_check(left: Seq<RandomDrawView>, site: DrawSite) -> Result<
    (),
    ReplayDrawError,
> {
    if left.len() == 0 {
        Err(ReplayDrawError::Exhausted)
    } else if left[0].site_id != site.site_id {
        Err(
            ReplayDrawError::SiteMismatch { expected: site.site_id, recorded: left[0].site_id },
        )
    } else if left[0].value is F64 {
        Ok(())
    } else {
        Err(ReplayDrawError::UnexpectedValue)
    }
}

/// Where the next draw of a chained provider comes from.
#[derive(Debug, Clone, Copy, PartialEq, Eq, Structural)]
pub enum ChainedDraw {
    /// It was repeated, with these bits.
    Replayed(u64),
    /// The recorded draws are used up, so it has to be made and then recorded.
    Fresh,
}

/// Repeats the random draws of a trace as long as there are any, and records those
/// that are made afterwards.
pub struct ChainedRandomProvider {
    replay: ReplayRandomProvider,
}

impl ChainedRandomProvider {
    pub closed spec fn left(&self) -> Seq<RandomDrawView> {
        self.replay.left()
    }

    pub closed spec fn recorded(&self) -> crate::explore::trace::TraceView {
        self.replay.recorded()
    }

    /// Makes a provider for a trace, and one without recorded draws where there is
    /// none.
    pub fn new(prefix: Option<&Trace>, recorder: TraceRecorder) -> (provider: Self)
        ensures
            provider.left() == (match prefix {
                Some(trace) => random_draws(trace@.events),
                None => Seq::empty(),
            }),
            provider.recorded() == recorder@,
    {
        let replay = match prefix {
            Some(trace) => ReplayRandomProvider::new(trace, recorder),
            None => {
                let draws = VecDeque::new();
                proof {
                    assert(draw_views(draws@) =~= Seq::empty());
                }
                ReplayRandomProvider { draws, recorder }
            },
        };
        ChainedRandomProvider { replay }
    }

    /// Tells whether the next draw can be made at a site.
    pub fn check_next(&self, site: DrawSite) -> (checked: Result<(), ReplayDrawError>)
        ensures
            checked == (if self.left().len() == 0 {
                Ok(())
            } else {
                next_draw_check(self.left(), site)
            }),
    {
        if self.replay.has_draws() {
            self.replay.check_next(site)
        } else {
            Ok(())
        }
    }

    /// Repeats the next draw at a site, or tells that it has to be made.
    pub fn sample_exp_seconds(&mut self, site: DrawSite) -> (draw: ChainedDraw)
        requires
            old(self).left().len() > 0 ==> next_draw_check(old(self).left(), site) is Ok,
        ensures
            match draw {
                ChainedDraw::Replayed(bits) => {
                    &&& old(self).left().len() > 0
                    &&& old(self).left()[0].value == DrawValueView::F64(bits)
                    &&& final(self).left() == old(self).left().drop_first()
                    &&& final(self).recorded() == old(self).recorded().with(
                        TraceEventView::RandomDraw(recorded_draw(site, bits)),
                    )
                },
                ChainedDraw::Fresh => {
                    &&& old(self).left().len() == 0
                    &&& *final(self) == *old(self)
                },
            },
    {
        if self.replay.has_draws() {
            ChainedDraw::Replayed(self.replay.sample_exp_seconds(site))
        } else {
            ChainedDraw::Fresh
        }
    }

    /// Records a draw that was made.
    pub fn record(&mut self, site: DrawSite, bits: u64)
        ensures
            final(self).left() == old(self).left(),
            final(self).recorded() == old(self).recorded().with(
                TraceEventView::RandomDraw(recorded_draw(site, bits)),
            ),
    {
        self.replay.record(site, bits);
    }

    /// The recording.
    pub fn into_recorder(self) -> (recorder: TraceRecorder)
        ensures
            recorder@ == self.recorded(),
    {
        self.replay.into_recorder()
    }
}

/// A draw that was recorded at a site is repeated there: it can be made, and gives
/// the recorded bits.
pub proof fn replay_repeats_a_recorded_draw(left: Seq<RandomDrawView>, site: DrawSite, bits: u64)
    requires
        left.len() > 0,
        left[0] == recorded_draw(site, bits),
    ensures
        next_draw_check(left, site) is Ok,
        left[0].value == DrawValueView::F64(bits),
{
}

/// Repeating the draws of a recording records them again: the draws of the new
/// trace are those of the old one so far.
pub proof fn repeated_draws_are_recorded_again(events: Seq<TraceEventView>, draw: RandomDrawView)
    ensures
        random_draws(events.push(TraceEventView::RandomDraw(draw))) == random_draws(events).push(
            draw,
        ),
{
    let longer = events.push(TraceEventView::RandomDraw(draw));
    assert(longer.drop_last() =~= events);
}

} // verus!
