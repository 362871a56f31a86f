//! One bucket: replay history, subscriber bookkeeping, fan-out to the live
//! feed and admission control.

use crate::clock::unix_seconds_now;
use crate::feed::{
    feed_attach, feed_open, feed_receiver_count, feed_send, feed_taken, FEED_CAPACITY,
};
use crate::models::{
    copy_events, copy_texts, events_view, stats_event_view, suspension_event_view, texts_view,
    SseEvent, SseEventView, StatsEvent,
};
use crate::rate::{RateController, RateState, MAX_LOG_LINES_PER_MINUTE};
use crate::subscription::{Phase, Subscription};
use crate::text::find_text;
use vstd::prelude::*;

verus! {

/// How many log events a bucket keeps for replay.
pub const HISTORY_SIZE: usize = 10;

/// The log event that carries `data`.
pub open spec fn log_event(data: Seq<char>) -> SseEventView {
    SseEventView { event_type: "log"@, data }
}

/// The newest `HISTORY_SIZE` events of `events`, in their order.
pub open spec fn retain_latest(events: Seq<SseEventView>) -> Seq<SseEventView> {
    if events.len() > HISTORY_SIZE {
        events.subrange(events.len() - HISTORY_SIZE, events.len() as int)
    } else {
        events
    }
}

/// What offering `event` to a live feed makes of what the feed has taken in:
/// with a viewer attached the event is taken in at the end, with none the
/// feed stays as it was. Which of the two it is lies with the viewers.
pub open spec fn offered(
    before: Seq<SseEventView>,
    event: SseEventView,
    after: Seq<SseEventView>,
) -> bool {
    after == before.push(event) || after == before
}

/// The state of a bucket as plain values.
pub struct ChannelState {
    /// The newest log events, oldest first.
    pub history: Seq<SseEventView>,
    /// The identities of the viewers that are connected, in the order they came.
    pub subscribers: Seq<Seq<char>>,
    /// Admission control.
    pub rate: RateState,
    /// Set by a sweep that found no subscriber, cleared by the next one to come.
    pub idle: bool,
}

impl ChannelState {
    /// What every reachable state of a bucket satisfies.
    pub open spec fn wf(self) -> bool {
        &&& self.history.len() <= HISTORY_SIZE
        &&& forall|i: int|
            0 <= i < self.history.len() ==> (#[trigger] self.history[i]).event_type == "log"@
        &&& self.subscribers.no_duplicates()
        &&& self.rate.wf()
        &&& self.idle ==> self.subscribers.len() == 0
    }

    /// A bucket that nothing has happened to.
    pub open spec fn fresh(ceiling: nat) -> ChannelState {
        ChannelState {
            history: Seq::empty(),
            subscribers: Seq::empty(),
            rate: RateState::fresh(ceiling),
            idle: false,
        }
    }

    /// After a log event with payload `data` was published.
    pub open spec fn with_log(self, data: Seq<char>) -> ChannelState {
        ChannelState { history: retain_latest(self.history.push(log_event(data))), ..self }
    }

    /// After a run of log events was published, first to last.
    pub open spec fn with_logs(self, payloads: Seq<Seq<char>>) -> ChannelState
        decreases payloads.len(),
    {
        if payloads.len() == 0 {
            self
        } else {
            self.with_logs(payloads.drop_last()).with_log(payloads.last())
        }
    }

    /// After the viewer `id` subscribed.
    pub open spec fn subscribed(self, id: Seq<char>) -> ChannelState {
        ChannelState {
            subscribers: if self.subscribers.contains(id) {
                self.subscribers
            } else {
                self.subscribers.push(id)
            },
            idle: false,
            ..self
        }
    }

    /// After the viewer `id` was released.
    pub open spec fn released(self, id: Seq<char>) -> ChannelState {
        ChannelState { subscribers: self.subscribers.remove_value(id), ..self }
    }

    /// After a sweep looked at the bucket.
    pub open spec fn swept(self) -> ChannelState {
        ChannelState { idle: self.subscribers.len() == 0, ..self }
    }

    /// After `lines` lines were offered to admission control at `now_secs`.
    pub open spec fn recorded(self, now_secs: nat, lines: nat) -> ChannelState {
        ChannelState { rate: self.rate.record(now_secs, lines), ..self }
    }
}

/// `count` plus signs.
pub open spec fn plus_signs(count: nat) -> Seq<char> {
    Seq::new(count, |i: int| '+')
}

/// The length of the longest of `ids`.
pub open spec fn longest(ids: Seq<Seq<char>>) -> nat
    decreases ids.len(),
{
    if ids.len() == 0 {
        0
    } else if ids.last().len() > longest(ids.drop_last()) {
        ids.last().len()
    } else {
        longest(ids.drop_last())
    }
}

/// Whether `identity` is what the draw `drawn` becomes among the registered
/// `ids`: the draw itself if it is not registered, else the draw followed by
/// the least number of plus signs that makes it differ from all of them.
pub open spec fn is_unused_from(ids: Seq<Seq<char>>, drawn: Seq<char>, identity: Seq<char>) -> bool {
    exists|count: nat|
        {
            &&& identity == drawn + #[trigger] plus_signs(count)
            &&& !ids.contains(identity)
            &&& forall|fewer: nat|
                fewer < count ==> ids.contains(drawn + #[trigger] plus_signs(fewer))
        }
}

/// None of `ids` is longer than the longest of them.
pub proof fn lemma_longest(ids: Seq<Seq<char>>, i: int)
    requires
        0 <= i < ids.len(),
    ensures
        ids[i].len() <= longest(ids),
    decreases ids.len(),
{
    if i < ids.len() - 1 {
        lemma_longest(ids.drop_last(), i);
    }
}

/// Asks `uuid::Uuid::new_v4` for a random identity and writes it in its usual
/// hyphenated form. The identity is random, so nothing is claimed of it.
#[verifier::external_body]
fn fresh_client_id() -> (id: String) {
    uuid::Uuid::new_v4().to_string()
}

/// One bucket: its replay history, its subscribers, its live feed and its
/// admission control. The subscribers are a vector that holds no identity
/// twice, for the reason given with the registry's names.
pub struct Channel {
    sender: tokio::sync::broadcast::Sender<SseEvent>,
    history: Vec<SseEvent>,
    clients: Vec<String>,
    rate: RateController,
    idle: bool,
}

impl View for Channel {
    type V = ChannelState;

    closed spec fn view(&self) -> ChannelState {
        ChannelState {
            history: events_view(self.history@),
            subscribers: texts_view(self.clients@),
            rate: self.rate@,
            idle: self.idle,
        }
    }
}

impl Channel {
    /// Holds when the bucket is in a state that its own operations can reach.
    pub open spec fn wf(&self) -> bool {
        self@.wf()
    }

    /// The events that the live feed of the bucket has taken in so far, in
    /// order: every event that was published while a viewer was attached.
    pub closed spec fn taken(&self) -> Seq<SseEventView> {
        feed_taken(self.sender)
    }

    /// A new, empty bucket with the default ceiling. The name is the
    /// registry's business and is not kept here.
    pub fn new(_name: String) -> (channel: Channel)
        ensures
            channel.wf(),
            channel@ == ChannelState::fresh(MAX_LOG_LINES_PER_MINUTE as nat),
            channel.taken() == Seq::<SseEventView>::empty(),
    {
        Channel::with_ceiling(MAX_LOG_LINES_PER_MINUTE)
    }

    /// A new, empty bucket that admits `ceiling` lines per minute.
    pub fn with_ceiling(ceiling: u64) -> (channel: Channel)
        ensures
            channel.wf(),
            channel@ == ChannelState::fresh(ceiling as nat),
            channel.taken() == Seq::<SseEventView>::empty(),
    {
        let channel = Channel {
            sender: feed_open(FEED_CAPACITY),
            history: Vec::new(),
            clients: Vec::new(),
            rate: RateController::new(ceiling),
            idle: false,
        };
        assert(events_view(channel.history@) =~= Seq::empty());
        assert(texts_view(channel.clients@) =~= Seq::empty());
        channel
    }

    /// The number of viewers attached to the live feed right now, as the feed
    /// reports it. It may differ from the number of registered subscribers.
    pub fn subscriber_count(&self) -> (count: usize) {
        feed_receiver_count(&self.sender)
    }

    /// Makes an identity that no registered viewer has out of the draw
    /// `drawn`: the draw itself if it is free, else the draw with as few plus
    /// signs behind it as it takes.
    pub fn unused_identity(&self, drawn: String) -> (identity: String)
        ensures
            is_unused_from(self@.subscribers, drawn@, identity@),
            !self@.subscribers.contains(identity@),
            !self@.subscribers.contains(drawn@) ==> identity@ == drawn@,
    {
        let ghost ids = texts_view(self.clients@);
        let ghost start = drawn@;
        let ghost mut count: nat = 0;
        let mut identity = drawn;
        proof {
            assert(start + plus_signs(0) =~= start);
        }
        while find_text(&self.clients, &identity).is_some()
            invariant
                ids == texts_view(self.clients@),
                identity@ == start + plus_signs(count),
                forall|fewer: nat| fewer < count ==> ids.contains(start + #[trigger] plus_signs(fewer)),
            decreases longest(ids) + 1 - identity@.len(),
        {
            proof {
                let at = choose|at: int| 0 <= at < self.clients.len() && self.clients[at]@ == identity@;
                assert(ids[at] == identity@);
                lemma_longest(ids, at);
            }
            identity.push('+');
            proof {
                assert(ids.contains(start + plus_signs(count)));
                assert(start + plus_signs(count + 1) =~= (start + plus_signs(count)).push('+'));
                count = count + 1;
            }
        }
        proof {
            assert(!ids.contains(identity@)) by {
                if ids.contains(identity@) {
                    let at = ids.index_of(identity@);
                    assert(self.clients[at]@ == identity@);
                }
            }
            if !ids.contains(start) {
                if count > 0 {
                    assert(ids.contains(start + plus_signs(0)));
                }
            }
            assert(identity@ == start + plus_signs(count));
        }
        identity
    }

    /// Registers a viewer under a fresh identity and hands back its
    /// subscription: the history as it stands, then the live feed. The
    /// identity is a random draw, made to differ from every registered one
    /// should the draw be taken.
    pub fn subscribe(&mut self) -> (subscription: Subscription)
        requires
            old(self).wf(),
        ensures
            final(self).wf(),
            !old(self)@.subscribers.contains(subscription@.client_id),
            final(self)@ == old(self)@.subscribed(subscription@.client_id),
            final(self)@.subscribers == old(self)@.subscribers.push(subscription@.client_id),
            final(self)@.subscribers.contains(subscription@.client_id),
            final(self).taken() == old(self).taken(),
            subscription@.replay == old(self)@.history,
            subscription@.phase == Phase::Replaying,
    {
        let client_id = self.unused_identity(fresh_client_id());
        self.subscribe_as(client_id)
    }

    /// Registers a viewer under the identity `client_id`, which stays
    /// registered once if it already is, and hands back its subscription.
    pub fn subscribe_as(&mut self, client_id: String) -> (subscription: Subscription)
        requires
            old(self).wf(),
        ensures
            final(self).wf(),
            final(self)@ == old(self)@.subscribed(client_id@),
            final(self)@.subscribers.contains(client_id@),
            final(self).taken() == old(self).taken(),
            subscription@.client_id == client_id@,
            subscription@.replay == old(self)@.history,
            subscription@.phase == Phase::Replaying,
    {
        let found = find_text(&self.clients, &client_id);
        let ghost before = texts_view(self.clients@);
        if found.is_none() {
            self.clients.push(client_id.clone());
            proof {
                assert(texts_view(self.clients@) =~= before.push(client_id@));
                assert(!before.contains(client_id@));
                assert(before.push(client_id@)[before.len() as int] == client_id@);
            }
        } else {
            assert(before[found.unwrap() as int] == client_id@);
        }
        self.idle = false;
        let replay = copy_events(&self.history);
        let receiver = feed_attach(&self.sender);
        Subscription { client_id, replay, phase: Phase::Replaying, receiver }
    }

    /// Takes the viewer `client_id` out of the subscriber set. Releasing an
    /// identity that is not registered changes nothing.
    pub fn release(&mut self, client_id: &str)
        requires
            old(self).wf(),
        ensures
            final(self).wf(),
            final(self)@ == old(self)@.released(client_id@),
            !final(self)@.subscribers.contains(client_id@),
            final(self).taken() == old(self).taken(),
    {
        let key = client_id.to_owned();
        let found = find_text(&self.clients, &key);
        let ghost before = texts_view(self.clients@);
        proof {
            before.index_of_first_ensures(key@);
        }
        match found {
            Some(i) => {
                assert(before[i as int] == key@);
                self.clients.remove(i);
                proof {
                    assert(before.index_of_first(key@) == Some(i as int));
                    assert(texts_view(self.clients@) =~= before.remove(i as int));
                    let after = before.remove(i as int);
                    assert forall|j: int| 0 <= j < after.len() implies after[j] != key@ by {
                        if j < i {
                            assert(after[j] == before[j]);
                        } else {
                            assert(after[j] == before[j + 1]);
                        }
                    }
                }
            },
            None => {
                assert(!before.contains(key@));
            },
        }
    }

    /// Whether admission control has suspended the bucket.
    pub fn is_suspended(&self) -> (suspended: bool)
        ensures
            suspended == self@.rate.suspended,
    {
        self.rate.is_suspended()
    }

    /// Offers `count` lines to admission control at the current time and says
    /// whether they are admitted. A suspended bucket admits nothing and does
    /// not change; otherwise the bucket moves as `record_logs_at` says for the
    /// second the clock gave.
    pub fn record_logs(&mut self, count: u64) -> (accepted: bool)
        requires
            old(self).wf(),
        ensures
            final(self).wf(),
            exists|now_secs: u64|
                {
                    &&& final(self)@ == #[trigger] old(self)@.recorded(
                        now_secs as nat,
                        count as nat,
                    )
                    &&& accepted == old(self)@.rate.accepts(now_secs as nat, count as nat)
                },
            old(self)@.rate.suspended ==> !accepted && final(self)@ == old(self)@,
            accepted == !final(self)@.rate.suspended,
            final(self).taken() == old(self).taken(),
    {
        let now_secs = unix_seconds_now();
        self.record_logs_at(now_secs, count)
    }

    /// Offers `count` lines to admission control at `now_secs` seconds since
    /// the epoch and says whether they are admitted.
    pub fn record_logs_at(&mut self, now_secs: u64, count: u64) -> (accepted: bool)
        requires
            old(self).wf(),
        ensures
            final(self).wf(),
            final(self)@ == old(self)@.recorded(now_secs as nat, count as nat),
            accepted == old(self)@.rate.accepts(now_secs as nat, count as nat),
            final(self).taken() == old(self).taken(),
    {
        self.rate.record_at(now_secs, count)
    }

    /// Offers a suspension notice to the live feed: the event named
    /// `suspension` whose payload tells the flag. History, subscribers and
    /// admission control are not touched.
    pub fn publish_suspension(&mut self, suspended: bool)
        ensures
            final(self)@ == old(self)@,
            offered(old(self).taken(), suspension_event_view(suspended), final(self).taken()),
    {
        let _ = feed_send(&mut self.sender, SseEvent::suspension(suspended));
    }

    /// Appends a log event with payload `data` to the history, keeps the
    /// newest `HISTORY_SIZE`, and offers the event to the live feed.
    pub fn publish_log(&mut self, data: String)
        requires
            old(self).wf(),
        ensures
            final(self).wf(),
            final(self)@ == old(self)@.with_log(data@),
            offered(old(self).taken(), log_event(data@), final(self).taken()),
    {
        let event = SseEvent::log(data);
        let ghost before = events_view(self.history@);
        self.history.push(event.clone());
        assert(events_view(self.history@) =~= before.push(log_event(data@)));
        if self.history.len() > HISTORY_SIZE {
            self.history.remove(0);
            assert(events_view(self.history@) =~= retain_latest(before.push(log_event(data@))));
        }
        let _ = feed_send(&mut self.sender, event);
    }

    /// Offers a stats report to the live feed: the event named `stats` whose
    /// payload is the report as JSON. History, subscribers and admission
    /// control are not touched.
    pub fn publish_stats(&mut self, stats: StatsEvent)
        ensures
            final(self)@ == old(self)@,
            offered(old(self).taken(), stats_event_view(stats), final(self).taken()),
    {
        let _ = feed_send(&mut self.sender, SseEvent::stats(&stats));
    }

    /// The bucket's counters: the registered subscribers and their
    /// identities, and the number of viewers the live feed reports, whatever
    /// that is at the moment.
    pub fn get_stats(&self) -> (stats: StatsEvent)
        ensures
            stats.client_count == self@.subscribers.len(),
            texts_view(stats.clients@) == self@.subscribers,
    {
        let live = self.subscriber_count();
        self.stats_with(live)
    }

    /// The bucket's counters, given the number of viewers on the live feed.
    pub fn stats_with(&self, conn_count: usize) -> (stats: StatsEvent)
        ensures
            stats.client_count == self@.subscribers.len(),
            stats.conn_count == conn_count,
            texts_view(stats.clients@) == self@.subscribers,
    {
        let clients = copy_texts(&self.clients);
        StatsEvent { client_count: clients.len(), conn_count, clients }
    }

    /// Marks the bucket idle if it has no subscriber, and says whether it did.
    pub fn mark_if_idle(&mut self) -> (idle: bool)
        requires
            old(self).wf(),
        ensures
            final(self).wf(),
            final(self)@ == old(self)@.swept(),
            idle == (old(self)@.subscribers.len() == 0),
            final(self).taken() == old(self).taken(),
    {
        self.idle = self.clients.len() == 0;
        self.idle
    }

    /// Whether a sweep marked the bucket idle and no viewer has come since.
    pub fn is_idle(&self) -> (idle: bool)
        ensures
            idle == self@.idle,
    {
        self.idle
    }
}

/// Publishing keeps a bucket well formed, touches nothing but the history,
/// and leaves in it the newest `HISTORY_SIZE` of all log events so far, in
/// the order they were published.
pub proof fn lemma_history_is_newest(state: ChannelState, payloads: Seq<Seq<char>>)
    requires
        state.wf(),
    ensures
        state.with_logs(payloads).wf(),
        state.with_logs(payloads).subscribers == state.subscribers,
        state.with_logs(payloads).rate == state.rate,
        state.with_logs(payloads).idle == state.idle,
        state.with_logs(payloads).history == retain_latest(
            state.history + payloads.map_values(|data: Seq<char>| log_event(data)),
        ),
    decreases payloads.len(),
{
    let events = payloads.map_values(|data: Seq<char>| log_event(data));
    if payloads.len() == 0 {
        assert(state.history + events =~= state.history);
    } else {
        let head = payloads.drop_last();
        let head_events = head.map_values(|data: Seq<char>| log_event(data));
        lemma_history_is_newest(state, head);
        let all_before = state.history + head_events;
        let all = state.history + events;
        assert(all =~= all_before.push(log_event(payloads.last())));
        assert(retain_latest(retain_latest(all_before).push(log_event(payloads.last())))
            =~= retain_latest(all));
        let after = state.with_logs(payloads);
        assert forall|i: int| 0 <= i < after.history.len() implies (
        #[trigger] after.history[i]).event_type == "log"@ by {
            let shift = all.len() - after.history.len();
            assert(after.history[i] == all[i + shift]);
            if i + shift < state.history.len() {
                assert(all[i + shift] == state.history[i + shift]);
            } else {
                assert(all[i + shift] == events[i + shift - state.history.len()]);
            }
        }
    }
}

/// After `HISTORY_SIZE` or more log events, a new viewer is replayed exactly
/// the last `HISTORY_SIZE` of them, in the order they were published,
/// whatever the history held before.
pub proof fn lemma_replay_is_last_published(
    state: ChannelState,
    payloads: Seq<Seq<char>>,
    id: Seq<char>,
)
    requires
        state.wf(),
        payloads.len() >= HISTORY_SIZE,
    ensures
        state.with_logs(payloads).subscribed(id).history == payloads.subrange(
            payloads.len() - HISTORY_SIZE,
            payloads.len() as int,
        ).map_values(|data: Seq<char>| log_event(data)),
{
    lemma_history_is_newest(state, payloads);
    let events = payloads.map_values(|data: Seq<char>| log_event(data));
    let all = state.history + events;
    let last = payloads.subrange(payloads.len() - HISTORY_SIZE, payloads.len() as int).map_values(
        |data: Seq<char>| log_event(data),
    );
    assert(retain_latest(all) =~= last);
}

/// A viewer is in the subscriber set as soon as it has subscribed and out of
/// it as soon as it is released; a viewer that was not there before leaves
/// the set as it found it. Both steps keep the bucket well formed.
pub proof fn lemma_subscriber_comes_and_goes(state: ChannelState, id: Seq<char>)
    requires
        state.wf(),
    ensures
        state.subscribed(id).wf(),
        state.subscribed(id).subscribers.contains(id),
        state.released(id).wf(),
        !state.released(id).subscribers.contains(id),
        !state.subscribed(id).released(id).subscribers.contains(id),
        !state.subscribers.contains(id) ==> state.subscribed(id).released(id).subscribers
            == state.subscribers,
{
    lemma_release_removes(state.subscribers, id);
    let joined = state.subscribed(id).subscribers;
    if state.subscribers.contains(id) {
        let i = state.subscribers.index_of(id);
        assert(joined[i] == id);
    } else {
        assert(joined[state.subscribers.len() as int] == id);
        joined.index_of_first_ensures(id);
        assert(joined.index_of_first(id) == Some(state.subscribers.len() as int));
        assert(joined.remove(state.subscribers.len() as int) =~= state.subscribers);
    }
    lemma_release_removes(joined, id);
}

/// Taking a value out of a list that holds nothing twice leaves a list that
/// holds nothing twice and does not hold the value.
pub proof fn lemma_release_removes(ids: Seq<Seq<char>>, id: Seq<char>)
    requires
        ids.no_duplicates(),
    ensures
        ids.remove_value(id).no_duplicates(),
        !ids.remove_value(id).contains(id),
        ids.remove_value(id).len() <= ids.len(),
        forall|other: Seq<char>|
            other != id ==> (ids.remove_value(id).contains(other) <==> ids.contains(other)),
{
    ids.index_of_first_ensures(id);
    match ids.index_of_first(id) {
        Some(i) => {
            let rest = ids.remove(i);
            assert forall|a: int, b: int|
                0 <= a < rest.len() && 0 <= b < rest.len() && a != b implies rest[a]
                != rest[b] by {
                let a0 = if a < i { a } else { a + 1 };
                let b0 = if b < i { b } else { b + 1 };
                assert(rest[a] == ids[a0] && rest[b] == ids[b0]);
            }
            assert forall|a: int| 0 <= a < rest.len() implies rest[a] != id by {
                let a0 = if a < i { a } else { a + 1 };
                assert(rest[a] == ids[a0]);
            }
            assert forall|other: Seq<char>| other != id implies (rest.contains(other)
                <==> ids.contains(other)) by {
                if rest.contains(other) {
                    let a = rest.index_of(other);
                    let a0 = if a < i { a } else { a + 1 };
                    assert(ids[a0] == other);
                }
                if ids.contains(other) {
                    let b = ids.index_of(other);
                    let b0 = if b < i { b } else { b - 1 };
                    assert(rest[b0] == other);
                }
            }
        },
        None => {},
    }
}

} // verus!
