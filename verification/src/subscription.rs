//! A viewer's delivery handle: a finite replay of history, then the live feed.

use crate::models::{events_view, SseEvent, SseEventView};
use vstd::prelude::*;

verus! {

/// Where a subscription stands.
#[derive(Debug, Clone, Copy, PartialEq, Eq, Structural)]
pub enum Phase {
    /// Still handing out the history it was given.
    Replaying,
    /// Following the live feed.
    Live,
    /// Over: the feed closed, the viewer lagged, or it was cancelled.
    Ended,
}

/// What the live feed reported to a waiting subscription.
pub enum LiveSignal {
    /// The next event.
    Event(SseEvent),
    /// The viewer fell behind the feed's capacity.
    Lagged,
    /// The feed is closed.
    Closed,
}

/// One viewer's delivery handle: first the history as it was when the viewer
/// subscribed, then the live feed.
pub struct Subscription {
    /// The identity registered with the bucket.
    pub client_id: String,
    /// The part of the history that is still to be handed out, oldest first.
    pub replay: Vec<SseEvent>,
    /// Where the subscription stands.
    pub phase: Phase,
    /// The live feed to wait on once the history is out.
    pub receiver: tokio::sync::broadcast::Receiver<SseEvent>,
}

/// A subscription as plain values.
pub struct SubscriptionState {
    pub client_id: Seq<char>,
    pub replay: Seq<SseEventView>,
    pub phase: Phase,
}

impl SubscriptionState {
    /// What the next replay step hands out.
    pub open spec fn replay_yield(self) -> Option<SseEventView> {
        if self.phase == Phase::Replaying && self.replay.len() > 0 {
            Some(self.replay[0])
        } else {
            None
        }
    }

    /// The state after the next replay step: one event less, or, with the
    /// history out, the move to the live feed.
    pub open spec fn after_replay(self) -> SubscriptionState {
        if self.phase == Phase::Replaying {
            if self.replay.len() > 0 {
                SubscriptionState { replay: self.replay.drop_first(), ..self }
            } else {
                SubscriptionState { phase: Phase::Live, ..self }
            }
        } else {
            self
        }
    }

    /// The state after `steps` replay steps.
    pub open spec fn after_replays(self, steps: nat) -> SubscriptionState
        decreases steps,
    {
        if steps == 0 {
            self
        } else {
            self.after_replays((steps - 1) as nat).after_replay()
        }
    }
}

impl View for Subscription {
    type V = SubscriptionState;

    open spec fn view(&self) -> SubscriptionState {
        SubscriptionState {
            client_id: self.client_id@,
            replay: events_view(self.replay@),
            phase: self.phase,
        }
    }
}

impl Subscription {
    /// One step of the replay: hands out the oldest event that is still
    /// waiting. With none left it returns `None` and moves to the live feed.
    pub fn next_replayed(&mut self) -> (event: Option<SseEvent>)
        ensures
            final(self)@ == old(self)@.after_replay(),
            final(self).receiver == old(self).receiver,
            match event {
                Some(e) => old(self)@.replay_yield() == Some(e@),
                None => old(self)@.replay_yield() is None,
            },
    {
        if self.phase == Phase::Replaying {
            if self.replay.len() > 0 {
                let event = self.replay.remove(0);
                assert(events_view(self.replay@) =~= events_view(old(self).replay@).drop_first());
                Some(event)
            } else {
                self.phase = Phase::Live;
                None
            }
        } else {
            None
        }
    }

    /// One step of the live tail: given what the feed reported, hands out the
    /// event, or ends the subscription when the viewer lagged or the feed is
    /// closed. Outside the live phase it hands out nothing and changes nothing.
    pub fn on_live(&mut self, signal: LiveSignal) -> (event: Option<SseEvent>)
        ensures
            final(self).client_id == old(self).client_id,
            final(self).replay == old(self).replay,
            final(self).receiver == old(self).receiver,
            final(self).phase == (if old(self).phase == Phase::Live && !(signal is Event) {
                Phase::Ended
            } else {
                old(self).phase
            }),
            event == (if old(self).phase == Phase::Live && signal is Event {
                Some(signal->Event_0)
            } else {
                None
            }),
    {
        if self.phase == Phase::Live {
            match signal {
                LiveSignal::Event(e) => Some(e),
                LiveSignal::Lagged => {
                    self.phase = Phase::Ended;
                    None
                },
                LiveSignal::Closed => {
                    self.phase = Phase::Ended;
                    None
                },
            }
        } else {
            None
        }
    }

    /// Ends the subscription at the viewer's wish, whatever phase it is in.
    pub fn cancel(&mut self)
        ensures
            final(self).client_id == old(self).client_id,
            final(self).replay == old(self).replay,
            final(self).receiver == old(self).receiver,
            final(self).phase == Phase::Ended,
    {
        self.phase = Phase::Ended;
    }
}

/// The replay hands out the history it was given, event by event and oldest
/// first, then reports that nothing is left and moves to the live feed.
pub proof fn lemma_replay_in_order(start: SubscriptionState, steps: nat)
    requires
        start.phase == Phase::Replaying,
        steps <= start.replay.len(),
    ensures
        start.after_replays(steps).phase == Phase::Replaying,
        start.after_replays(steps).client_id == start.client_id,
        start.after_replays(steps).replay == start.replay.skip(steps as int),
        steps < start.replay.len() ==> start.after_replays(steps).replay_yield() == Some(
            start.replay[steps as int],
        ),
        steps == start.replay.len() ==> {
            &&& start.after_replays(steps).replay_yield() is None
            &&& start.after_replays(steps + 1).phase == Phase::Live
        },
    decreases steps,
{
    if steps == 0 {
        assert(start.replay.skip(0) =~= start.replay);
    } else {
        lemma_replay_in_order(start, (steps - 1) as nat);
        assert(start.replay.skip(steps - 1).drop_first() =~= start.replay.skip(steps as int));
    }
    if steps == start.replay.len() {
        assert(start.after_replays(steps + 1) == start.after_replays(steps).after_replay());
    }
}

} // verus!
