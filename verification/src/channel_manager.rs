//! The registry of buckets: lookup by name, creation on first use, and the
//! removal of buckets that stayed idle.

use crate::channel::{
    lemma_history_is_newest, lemma_subscriber_comes_and_goes, Channel, ChannelState,
};
use crate::models::{texts_view, SseEventView};
use crate::rate::lemma_record_keeps_wf;
use crate::rate::MAX_LOG_LINES_PER_MINUTE;
use crate::text::find_text;
use vstd::prelude::*;

verus! {

/// The map from bucket names to what stands at each name's position.
pub open spec fn registry_map<T>(names: Seq<Seq<char>>, values: Seq<T>) -> Map<Seq<char>, T> {
    Map::new(
        |name: Seq<char>| names.contains(name),
        |name: Seq<char>| values[names.index_of(name)],
    )
}

/// The states of a list of buckets.
pub open spec fn states_view(channels: Seq<Channel>) -> Seq<ChannelState> {
    channels.map_values(|c: Channel| c@)
}

/// What the live feeds of a list of buckets have taken in.
pub open spec fn takens_view(channels: Seq<Channel>) -> Seq<Seq<SseEventView>> {
    channels.map_values(|c: Channel| c.taken())
}

/// The state that `name` has in `registry`, or that of a new bucket.
pub open spec fn entry_or_fresh(
    registry: Map<Seq<char>, ChannelState>,
    name: Seq<char>,
) -> ChannelState {
    if registry.contains_key(name) {
        registry[name]
    } else {
        ChannelState::fresh(MAX_LOG_LINES_PER_MINUTE as nat)
    }
}

/// The registry after a sweep: every bucket without a subscriber is marked idle.
pub open spec fn swept_registry(registry: Map<Seq<char>, ChannelState>) -> Map<
    Seq<char>,
    ChannelState,
> {
    registry.map_values(|state: ChannelState| state.swept())
}

/// The registry after the buckets that are still marked idle were removed.
pub open spec fn evicted_registry(registry: Map<Seq<char>, ChannelState>) -> Map<
    Seq<char>,
    ChannelState,
> {
    Map::new(
        |name: Seq<char>| registry.contains_key(name) && !registry[name].idle,
        |name: Seq<char>| registry[name],
    )
}

/// Every bucket of the registry is in a reachable state.
pub open spec fn registry_wf(registry: Map<Seq<char>, ChannelState>) -> bool {
    forall|name: Seq<char>| registry.contains_key(name) ==> (#[trigger] registry[name]).wf()
}

/// With no name twice, the registry holds at each name what stands at the
/// name's position.
pub proof fn lemma_registry_map_at<T>(names: Seq<Seq<char>>, values: Seq<T>, i: int)
    requires
        names.no_duplicates(),
        0 <= i < names.len(),
    ensures
        registry_map(names, values).contains_key(names[i]),
        registry_map(names, values)[names[i]] == values[i],
        names.index_of(names[i]) == i,
{
    assert(names.contains(names[i]));
}

/// Taking a position out of both lists takes its name out of the registry
/// and leaves the rest as it was.
pub proof fn lemma_registry_map_remove<T>(names: Seq<Seq<char>>, values: Seq<T>, i: int)
    requires
        names.no_duplicates(),
        names.len() == values.len(),
        0 <= i < names.len(),
    ensures
        names.remove(i).no_duplicates(),
        registry_map(names.remove(i), values.remove(i)) == registry_map(names, values).remove(
            names[i],
        ),
{
    let short = names.remove(i);
    assert forall|a: int, b: int| 0 <= a < short.len() && 0 <= b < short.len() && a != b implies short[a] != short[b] by {
        let a0 = if a < i { a } else { a + 1 };
        let b0 = if b < i { b } else { b + 1 };
        assert(short[a] == names[a0]);
        assert(short[b] == names[b0]);
    }
    let left = registry_map(short, values.remove(i));
    let right = registry_map(names, values).remove(names[i]);
    assert forall|n: Seq<char>| left.contains_key(n) <==> right.contains_key(n) by {
        if short.contains(n) {
            let a = short.index_of(n);
            let a0 = if a < i { a } else { a + 1 };
            assert(names[a0] == n);
        }
        if names.contains(n) && n != names[i] {
            let b = names.index_of(n);
            let b0 = if b < i { b } else { b - 1 };
            assert(short[b0] == n);
        }
    }
    assert forall|n: Seq<char>| left.contains_key(n) implies left[n] == right[n] by {
        let a = short.index_of(n);
        let a0 = if a < i { a } else { a + 1 };
        assert(names[a0] == n);
        lemma_registry_map_at(names, values, a0);
    }
    assert(left =~= right);
}

/// Writing a new value at a position writes it under the position's name
/// and leaves the rest as it was.
pub proof fn lemma_registry_map_update<T>(names: Seq<Seq<char>>, values: Seq<T>, i: int, value: T)
    requires
        names.no_duplicates(),
        names.len() == values.len(),
        0 <= i < names.len(),
    ensures
        registry_map(names, values.update(i, value)) == registry_map(names, values).insert(
            names[i],
            value,
        ),
{
    let left = registry_map(names, values.update(i, value));
    let right = registry_map(names, values).insert(names[i], value);
    assert(names.contains(names[i]));
    assert forall|n: Seq<char>| left.contains_key(n) implies left[n] == right[n] by {
        let j = names.index_of(n);
        if j == i {
            assert(n == names[i]);
        }
    }
    assert(left =~= right);
}

/// Adding a new name with its value at the end adds the pair to the
/// registry and leaves the rest as it was.
pub proof fn lemma_registry_map_push<T>(
    names: Seq<Seq<char>>,
    values: Seq<T>,
    name: Seq<char>,
    value: T,
)
    requires
        names.no_duplicates(),
        names.len() == values.len(),
        !names.contains(name),
    ensures
        names.push(name).no_duplicates(),
        registry_map(names.push(name), values.push(value)) == registry_map(names, values).insert(
            name,
            value,
        ),
{
    let longer = names.push(name);
    assert forall|a: int, b: int|
        0 <= a < longer.len() && 0 <= b < longer.len() && a != b implies longer[a]
        != longer[b] by {
        if a < names.len() {
            assert(longer[a] == names[a]);
        }
        if b < names.len() {
            assert(longer[b] == names[b]);
        }
    }
    let left = registry_map(longer, values.push(value));
    let right = registry_map(names, values).insert(name, value);
    assert(longer[names.len() as int] == name);
    assert forall|n: Seq<char>| left.contains_key(n) <==> right.contains_key(n) by {
        if longer.contains(n) {
            let a = longer.index_of(n);
            if a < names.len() {
                assert(names[a] == n);
            }
        }
        if names.contains(n) {
            let b = names.index_of(n);
            assert(longer[b] == n);
        }
    }
    assert forall|n: Seq<char>| left.contains_key(n) implies left[n] == right[n] by {
        let a = longer.index_of(n);
        lemma_registry_map_at(longer, values.push(value), a);
        if a < names.len() {
            assert(names[a] == n);
            lemma_registry_map_at(names, values, a);
        }
    }
    assert(left =~= right);
}

/// The buckets of the hub, by name. Names and buckets stand in two vectors,
/// position by position, with no name twice: of a hash map keyed by `String`
/// vstd states nothing that a proof could use.
pub struct ChannelManager {
    names: Vec<String>,
    channels: Vec<Channel>,
}

impl View for ChannelManager {
    type V = Map<Seq<char>, ChannelState>;

    closed spec fn view(&self) -> Map<Seq<char>, ChannelState> {
        registry_map(texts_view(self.names@), states_view(self.channels@))
    }
}

impl ChannelManager {
    /// Holds when the registry is in a state that its own operations can
    /// reach: no name occurs twice and every bucket is well formed.
    pub closed spec fn wf(&self) -> bool {
        &&& self.names.len() == self.channels.len()
        &&& texts_view(self.names@).no_duplicates()
        &&& forall|i: int| 0 <= i < self.channels.len() ==> (#[trigger] self.channels[i]).wf()
    }

    /// What the live feed of each bucket has taken in so far, by name.
    pub closed spec fn taken(&self) -> Map<Seq<char>, Seq<SseEventView>> {
        registry_map(texts_view(self.names@), takens_view(self.channels@))
    }

    /// The registry knows a feed for exactly the buckets it holds.
    pub proof fn lemma_taken_names(&self)
        ensures
            self.taken().dom() == self@.dom(),
    {
        assert(self.taken().dom() =~= self@.dom());
    }

    /// In a well-formed registry every bucket is well formed.
    pub proof fn lemma_wf_buckets(&self)
        requires
            self.wf(),
        ensures
            registry_wf(self@),
    {
        let names = texts_view(self.names@);
        assert forall|name: Seq<char>| self@.contains_key(name) implies (#[trigger] self@[name]).wf() by {
            let i = names.index_of(name);
            assert(self.channels[i].wf());
        }
    }

    /// An empty registry.
    pub fn new() -> (manager: ChannelManager)
        ensures
            manager.wf(),
            manager@ == Map::<Seq<char>, ChannelState>::empty(),
            manager.taken() == Map::<Seq<char>, Seq<SseEventView>>::empty(),
    {
        let manager = ChannelManager { names: Vec::new(), channels: Vec::new() };
        assert(manager@ =~= Map::<Seq<char>, ChannelState>::empty());
        assert(manager.taken() =~= Map::<Seq<char>, Seq<SseEventView>>::empty());
        manager
    }

    /// The bucket called `name`, made new and empty if the registry has none.
    /// What the caller does to the bucket is what the registry then holds
    /// under that name; every other bucket, its live feed included, is as it was.
    pub fn get_or_create_channel(&mut self, name: &str) -> (channel: &mut Channel)
        requires
            old(self).wf(),
        ensures
            channel.wf(),
            channel@ == entry_or_fresh(old(self)@, name@),
            channel.taken() == (if old(self)@.contains_key(name@) {
                old(self).taken()[name@]
            } else {
                Seq::<SseEventView>::empty()
            }),
            final(self)@ == old(self)@.insert(name@, final(channel)@),
            final(self).taken() == old(self).taken().insert(name@, final(channel).taken()),
            final(channel).wf() ==> final(self).wf(),
    {
        let key = name.to_owned();
        let found = find_text(&self.names, &key);
        let ghost old_names = texts_view(self.names@);
        let ghost old_states = states_view(self.channels@);
        let ghost old_takens = takens_view(self.channels@);
        let i = match found {
            Some(i) => {
                proof {
                    assert(old_names[i as int] == key@);
                    lemma_registry_map_at(old_names, old_states, i as int);
                    lemma_registry_map_at(old_names, old_takens, i as int);
                }
                i
            },
            None => {
                self.names.push(key);
                self.channels.push(Channel::new(name.to_owned()));
                proof {
                    let fresh = ChannelState::fresh(MAX_LOG_LINES_PER_MINUTE as nat);
                    assert(!old_names.contains(name@));
                    assert(texts_view(self.names@) =~= old_names.push(name@));
                    assert(states_view(self.channels@) =~= old_states.push(fresh));
                    assert(takens_view(self.channels@) =~= old_takens.push(
                        Seq::<SseEventView>::empty(),
                    ));
                    lemma_registry_map_push(old_names, old_states, name@, fresh);
                    lemma_registry_map_push(
                        old_names,
                        old_takens,
                        name@,
                        Seq::<SseEventView>::empty(),
                    );
                }
                self.names.len() - 1
            },
        };
        let ghost names = texts_view(self.names@);
        let ghost states = states_view(self.channels@);
        let ghost takens = takens_view(self.channels@);
        let ghost channels = self.channels@;
        proof {
            assert(names[i as int] == name@);
            assert(names.no_duplicates());
            assert(states[i as int] == entry_or_fresh(old(self)@, name@));
        }
        let channel = &mut self.channels[i];
        proof {
            let after = channels.update(i as int, *final(channel));
            assert(states_view(after) =~= states.update(i as int, final(channel)@));
            assert(takens_view(after) =~= takens.update(i as int, final(channel).taken()));
            lemma_registry_map_update(names, states, i as int, final(channel)@);
            lemma_registry_map_update(names, takens, i as int, final(channel).taken());
            assert(registry_map(names, states).insert(name@, final(channel)@) =~= old(
                self,
            )@.insert(name@, final(channel)@));
            assert(registry_map(names, takens).insert(name@, final(channel).taken()) =~= old(
                self,
            ).taken().insert(name@, final(channel).taken()));
        }
        channel
    }

    /// The bucket called `name`, if the registry has one. Nothing is created.
    pub fn get_channel(&self, name: &str) -> (channel: Option<&Channel>)
        requires
            self.wf(),
        ensures
            match channel {
                Some(c) => {
                    &&& self@.contains_key(name@)
                    &&& c@ == self@[name@]
                    &&& c.taken() == self.taken()[name@]
                    &&& c.wf()
                },
                None => !self@.contains_key(name@),
            },
    {
        let key = name.to_owned();
        let found = find_text(&self.names, &key);
        let ghost names = texts_view(self.names@);
        match found {
            Some(i) => {
                proof {
                    assert(names[i as int] == key@);
                    lemma_registry_map_at(names, states_view(self.channels@), i as int);
                    lemma_registry_map_at(names, takens_view(self.channels@), i as int);
                }
                Some(&self.channels[i])
            },
            None => {
                assert(!names.contains(name@));
                None
            },
        }
    }

    /// Takes the viewer `client_id` out of the bucket called `name`. Nothing
    /// is created: with no such bucket, nothing changes.
    pub fn release(&mut self, name: &str, client_id: &str)
        requires
            old(self).wf(),
        ensures
            final(self).wf(),
            final(self)@ == (if old(self)@.contains_key(name@) {
                old(self)@.insert(name@, old(self)@[name@].released(client_id@))
            } else {
                old(self)@
            }),
            final(self).taken() == old(self).taken(),
    {
        let key = name.to_owned();
        let found = find_text(&self.names, &key);
        let ghost names = texts_view(self.names@);
        let ghost states = states_view(self.channels@);
        let ghost takens = takens_view(self.channels@);
        match found {
            Some(i) => {
                proof {
                    assert(names[i as int] == key@);
                    lemma_registry_map_at(names, states, i as int);
                }
                self.channels[i].release(client_id);
                proof {
                    let after = states_view(self.channels@);
                    assert(after =~= states.update(i as int, states[i as int].released(client_id@)));
                    lemma_registry_map_update(
                        names,
                        states,
                        i as int,
                        states[i as int].released(client_id@),
                    );
                    assert(takens_view(self.channels@) =~= takens);
                }
            },
            None => {
                assert(!names.contains(name@));
            },
        }
    }

    /// The sweep: marks every bucket that has no subscriber as idle and
    /// returns the names of those buckets. A bucket that has a subscriber
    /// loses an older mark.
    pub fn garbage_collect(&mut self) -> (candidates: Vec<String>)
        requires
            old(self).wf(),
        ensures
            final(self).wf(),
            final(self)@ == swept_registry(old(self)@),
            final(self).taken() == old(self).taken(),
            texts_view(candidates@).no_duplicates(),
            forall|name: Seq<char>|
                texts_view(candidates@).contains(name) <==> (old(self)@.contains_key(name) && old(
                    self,
                )@[name].subscribers.len() == 0),
    {
        let ghost names = texts_view(self.names@);
        let ghost old_states = states_view(self.channels@);
        let ghost old_takens = takens_view(self.channels@);
        let mut candidates: Vec<String> = Vec::new();
        let mut picked: Ghost<Seq<int>> = Ghost(Seq::empty());
        let mut i: usize = 0;
        while i < self.channels.len()
            invariant
                i <= self.channels.len(),
                self.names == old(self).names,
                names == texts_view(self.names@),
                names.no_duplicates(),
                self.names.len() == self.channels.len(),
                old_states.len() == self.channels.len(),
                old_takens.len() == self.channels.len(),
                forall|j: int|
                    0 <= j < self.channels.len() ==> (#[trigger] self.channels[j]).taken()
                        == old_takens[j],
                forall|j: int| 0 <= j < self.channels.len() ==> (#[trigger] self.channels[j]).wf(),
                forall|j: int| 0 <= j < i ==> (#[trigger] self.channels[j])@ == old_states[j].swept(),
                forall|j: int|
                    i <= j < self.channels.len() ==> (#[trigger] self.channels[j])@ == old_states[j],
                picked@.len() == candidates.len(),
                forall|k: int|
                    0 <= k < picked@.len() ==> {
                        &&& 0 <= #[trigger] picked@[k] < i
                        &&& candidates[k]@ == names[picked@[k]]
                        &&& old_states[picked@[k]].subscribers.len() == 0
                    },
                forall|k: int, l: int| 0 <= k < l < picked@.len() ==> picked@[k] < picked@[l],
                forall|j: int|
                    0 <= j < i && old_states[j].subscribers.len() == 0 ==> picked@.contains(j),
            decreases self.channels.len() - i,
        {
            let idle = self.channels[i].mark_if_idle();
            if idle {
                candidates.push(self.names[i].clone());
                proof {
                    let prior = picked@;
                    picked@ = prior.push(i as int);
                    assert forall|j: int|
                        0 <= j < i + 1 && old_states[j].subscribers.len() == 0 implies picked@.contains(
                        j,
                    ) by {
                        if j < i {
                            assert(prior.contains(j));
                            let k = prior.index_of(j);
                            assert(picked@[k] == j);
                        } else {
                            assert(picked@[prior.len() as int] == j);
                        }
                    }
                }
            }
            i += 1;
        }
        proof {
            let states = states_view(self.channels@);
            assert forall|n: Seq<char>| names.contains(n) implies #[trigger] states[names.index_of(n)]
                == old_states[names.index_of(n)].swept() by {
                let j = names.index_of(n);
                assert(self.channels[j]@ == old_states[j].swept());
            }
            assert(self@ =~= swept_registry(old(self)@));
            assert(takens_view(self.channels@) =~= old_takens);
            let listed = texts_view(candidates@);
            assert forall|a: int, b: int|
                0 <= a < listed.len() && 0 <= b < listed.len() && a != b implies listed[a]
                != listed[b] by {
                assert(listed[a] == names[picked@[a]]);
                assert(listed[b] == names[picked@[b]]);
                if a < b {
                    assert(picked@[a] < picked@[b]);
                } else {
                    assert(picked@[b] < picked@[a]);
                }
            }
            assert forall|n: Seq<char>|
                listed.contains(n) <==> (old(self)@.contains_key(n) && old(
                    self,
                )@[n].subscribers.len() == 0) by {
                if listed.contains(n) {
                    let k = listed.index_of(n);
                    assert(listed[k] == names[picked@[k]]);
                    lemma_registry_map_at(names, old_states, picked@[k]);
                }
                if old(self)@.contains_key(n) && old(self)@[n].subscribers.len() == 0 {
                    let j = names.index_of(n);
                    assert(picked@.contains(j));
                    let k = picked@.index_of(j);
                    assert(listed[k] == n);
                }
            }
        }
        candidates
    }

    /// The second look, one debounce interval after a sweep: removes every
    /// bucket that is still marked idle, and returns the names removed. A
    /// bucket that a viewer subscribed to since the sweep is no longer marked
    /// and stays, with its history.
    pub fn evict_idle(&mut self) -> (removed: Vec<String>)
        requires
            old(self).wf(),
        ensures
            final(self).wf(),
            final(self)@ == evicted_registry(old(self)@),
            final(self).taken() == old(self).taken().restrict(final(self)@.dom()),
            texts_view(removed@).no_duplicates(),
            forall|name: Seq<char>|
                texts_view(removed@).contains(name) <==> (old(self)@.contains_key(name) && old(
                    self,
                )@[name].idle),
    {
        let ghost old_map = self@;
        let ghost old_taken = self.taken();
        let mut removed: Vec<String> = Vec::new();
        let mut i: usize = self.channels.len();
        while i > 0
            invariant
                i <= self.channels.len(),
                self.names.len() == self.channels.len(),
                texts_view(self.names@).no_duplicates(),
                forall|j: int| 0 <= j < self.channels.len() ==> (#[trigger] self.channels[j]).wf(),
                forall|j: int| i <= j < self.channels.len() ==> !(#[trigger] self.channels[j])@.idle,
                forall|n: Seq<char>| #[trigger]
                    self@.contains_key(n) ==> old_map.contains_key(n) && self@[n] == old_map[n],
                forall|n: Seq<char>| #[trigger]
                    self.taken().contains_key(n) ==> old_taken.contains_key(n) && self.taken()[n]
                        == old_taken[n],
                forall|n: Seq<char>| #[trigger]
                    old_map.contains_key(n) && !self@.contains_key(n) ==> old_map[n].idle
                        && texts_view(removed@).contains(n),
                forall|k: int|
                    0 <= k < removed.len() ==> {
                        &&& old_map.contains_key(#[trigger] texts_view(removed@)[k])
                        &&& old_map[texts_view(removed@)[k]].idle
                        &&& !self@.contains_key(texts_view(removed@)[k])
                    },
                texts_view(removed@).no_duplicates(),
            decreases i,
        {
            i -= 1;
            if self.channels[i].is_idle() {
                let ghost names = texts_view(self.names@);
                let ghost states = states_view(self.channels@);
                let ghost before = self@;
                let ghost takens = takens_view(self.channels@);
                let ghost taken_before = self.taken();
                let ghost listed = texts_view(removed@);
                proof {
                    lemma_registry_map_at(names, states, i as int);
                    lemma_registry_map_remove(names, states, i as int);
                    lemma_registry_map_remove(names, takens, i as int);
                }
                let name = self.names.remove(i);
                let _ = self.channels.remove(i);
                removed.push(name);
                proof {
                    assert(texts_view(self.names@) =~= names.remove(i as int));
                    assert(states_view(self.channels@) =~= states.remove(i as int));
                    assert(takens_view(self.channels@) =~= takens.remove(i as int));
                    let gone = names[i as int];
                    assert(self@ == before.remove(gone));
                    assert(self.taken() == taken_before.remove(gone));
                    assert forall|n: Seq<char>| #[trigger]
                        self.taken().contains_key(n) implies old_taken.contains_key(n)
                        && self.taken()[n] == old_taken[n] by {
                        assert(taken_before.contains_key(n));
                    }
                    assert(before.contains_key(gone) && before[gone] == states[i as int]);
                    assert(old_map.contains_key(gone) && old_map[gone].idle);
                    assert(texts_view(removed@) =~= listed.push(gone));
                    assert(!listed.contains(gone)) by {
                        if listed.contains(gone) {
                            let k = listed.index_of(gone);
                            assert(!before.contains_key(listed[k]));
                        }
                    }
                    assert forall|n: Seq<char>| #[trigger]
                        self@.contains_key(n) implies old_map.contains_key(n) && self@[n]
                        == old_map[n] by {
                        assert(before.contains_key(n));
                    }
                    assert forall|k: int| 0 <= k < removed.len() implies {
                        &&& old_map.contains_key(#[trigger] texts_view(removed@)[k])
                        &&& old_map[texts_view(removed@)[k]].idle
                        &&& !self@.contains_key(texts_view(removed@)[k])
                    } by {
                        if k < listed.len() {
                            assert(texts_view(removed@)[k] == listed[k]);
                            assert(!before.contains_key(listed[k]));
                        }
                    }
                    assert forall|n: Seq<char>| #[trigger]
                        old_map.contains_key(n) && !self@.contains_key(n) implies old_map[n].idle
                        && texts_view(removed@).contains(n) by {
                        if n == names[i as int] {
                            assert(texts_view(removed@)[listed.len() as int] == n);
                        } else {
                            assert(!before.contains_key(n));
                            let k = listed.index_of(n);
                            assert(texts_view(removed@)[k] == n);
                        }
                    }
                }
            }
        }
        proof {
            let names = texts_view(self.names@);
            let states = states_view(self.channels@);
            assert forall|n: Seq<char>| self@.contains_key(n) implies !self@[n].idle by {
                let j = names.index_of(n);
                assert(!self.channels[j]@.idle);
            }
            assert forall|n: Seq<char>|
                self@.contains_key(n) <==> evicted_registry(old_map).contains_key(n) by {
                if self@.contains_key(n) {
                    assert(old_map.contains_key(n) && self@[n] == old_map[n]);
                }
                if old_map.contains_key(n) && !old_map[n].idle {
                    assert(self@.contains_key(n));
                }
            }
            assert(self@ =~= evicted_registry(old_map));
            self.lemma_taken_names();
            assert forall|n: Seq<char>| self@.contains_key(n) implies self.taken().contains_key(
                n,
            ) by {
                assert(self.taken().dom().contains(n));
            }
            assert(self.taken() =~= old_taken.restrict(self@.dom()));
            assert forall|n: Seq<char>|
                texts_view(removed@).contains(n) <==> (old_map.contains_key(n) && old_map[n].idle) by {
                if texts_view(removed@).contains(n) {
                    let k = texts_view(removed@).index_of(n);
                    assert(texts_view(removed@)[k] == n);
                }
            }
        }
        removed
    }
}

/// What callers do to the registry between a sweep and the second look.
pub enum RegistryOp {
    /// A lookup that makes the bucket if it is missing.
    Touch { name: Seq<char> },
    /// A viewer subscribes to the bucket, which is made if it is missing.
    Subscribe { name: Seq<char>, id: Seq<char> },
    /// A viewer of the bucket is released; nothing is made.
    Release { name: Seq<char>, id: Seq<char> },
    /// A log event is published to the bucket, which is made if it is missing.
    PublishLog { name: Seq<char>, data: Seq<char> },
    /// Lines are offered to the bucket's admission control.
    Record { name: Seq<char>, now_secs: nat, lines: nat },
}

/// The registry after one operation.
pub open spec fn apply_op(registry: Map<Seq<char>, ChannelState>, op: RegistryOp) -> Map<
    Seq<char>,
    ChannelState,
> {
    match op {
        RegistryOp::Touch { name } => registry.insert(name, entry_or_fresh(registry, name)),
        RegistryOp::Subscribe { name, id } => registry.insert(
            name,
            entry_or_fresh(registry, name).subscribed(id),
        ),
        RegistryOp::Release { name, id } => if registry.contains_key(name) {
            registry.insert(name, registry[name].released(id))
        } else {
            registry
        },
        RegistryOp::PublishLog { name, data } => registry.insert(
            name,
            entry_or_fresh(registry, name).with_log(data),
        ),
        RegistryOp::Record { name, now_secs, lines } => registry.insert(
            name,
            entry_or_fresh(registry, name).recorded(now_secs, lines),
        ),
    }
}

/// The registry after a run of operations, first to last.
pub open spec fn apply_ops(registry: Map<Seq<char>, ChannelState>, ops: Seq<RegistryOp>) -> Map<
    Seq<char>,
    ChannelState,
>
    decreases ops.len(),
{
    if ops.len() == 0 {
        registry
    } else {
        apply_op(apply_ops(registry, ops.drop_last()), ops.last())
    }
}

/// Whether `op` is a viewer subscribing to the bucket `name`.
pub open spec fn subscribes_to(op: RegistryOp, name: Seq<char>) -> bool {
    op matches RegistryOp::Subscribe { name: target, .. } && target == name
}

/// Operations and sweeps keep every bucket well formed.
pub proof fn lemma_ops_keep_wf(registry: Map<Seq<char>, ChannelState>, ops: Seq<RegistryOp>)
    requires
        registry_wf(registry),
    ensures
        registry_wf(apply_ops(registry, ops)),
        registry_wf(swept_registry(registry)),
        registry_wf(evicted_registry(registry)),
    decreases ops.len(),
{
    assert forall|name: Seq<char>| swept_registry(registry).contains_key(name) implies (
    #[trigger] swept_registry(registry)[name]).wf() by {
        assert(registry[name].wf());
    }
    assert forall|name: Seq<char>| evicted_registry(registry).contains_key(name) implies (
    #[trigger] evicted_registry(registry)[name]).wf() by {
        assert(registry[name].wf());
    }
    if ops.len() > 0 {
        let before = apply_ops(registry, ops.drop_last());
        lemma_ops_keep_wf(registry, ops.drop_last());
        let after = apply_op(before, ops.last());
        assert forall|name: Seq<char>| after.contains_key(name) implies (#[trigger] after[name]).wf() by {
            if before.contains_key(name) {
                assert(before[name].wf());
            }
            let entry = entry_or_fresh(before, name);
            assert(entry.wf());
            match ops.last() {
                RegistryOp::Touch { name: target } => {},
                RegistryOp::Subscribe { name: target, id } => {
                    lemma_subscriber_comes_and_goes(entry, id);
                },
                RegistryOp::Release { name: target, id } => {
                    lemma_subscriber_comes_and_goes(entry, id);
                },
                RegistryOp::PublishLog { name: target, data } => {
                    lemma_history_is_newest(entry, seq![data]);
                    assert(seq![data].drop_last() =~= Seq::<Seq<char>>::empty());
                    assert(entry.with_logs(seq![data]) == entry.with_logs(
                        Seq::<Seq<char>>::empty(),
                    ).with_log(data));
                },
                RegistryOp::Record { name: target, now_secs, lines } => {
                    lemma_record_keeps_wf(entry.rate, now_secs, lines);
                },
            }
        }
    }
}

/// No operation sets the idle mark: a bucket that is marked after a run of
/// operations was there and marked, with no subscriber, at every point of
/// the run, and no viewer subscribed to it during the run.
pub proof fn lemma_idle_mark_only_fades(
    registry: Map<Seq<char>, ChannelState>,
    ops: Seq<RegistryOp>,
    name: Seq<char>,
    upto: int,
)
    requires
        registry_wf(registry),
        0 <= upto <= ops.len(),
        apply_ops(registry, ops).contains_key(name),
        apply_ops(registry, ops)[name].idle,
    ensures
        apply_ops(registry, ops.take(upto)).contains_key(name),
        apply_ops(registry, ops.take(upto))[name].idle,
        apply_ops(registry, ops.take(upto))[name].subscribers.len() == 0,
        forall|i: int| 0 <= i < ops.len() ==> !subscribes_to(#[trigger] ops[i], name),
    decreases ops.len(),
{
    lemma_ops_keep_wf(registry, ops);
    lemma_ops_keep_wf(registry, ops.take(upto));
    if ops.len() == 0 {
        assert(ops.take(upto) =~= ops);
    } else {
        let head = ops.drop_last();
        let before = apply_ops(registry, head);
        assert(before.contains_key(name) && before[name].idle && !subscribes_to(ops.last(), name));
        if upto == ops.len() {
            assert(ops.take(upto) =~= ops);
            lemma_idle_mark_only_fades(registry, head, name, head.len() as int);
        } else {
            assert(head.take(upto) =~= ops.take(upto));
            lemma_idle_mark_only_fades(registry, head, name, upto);
        }
        assert forall|i: int| 0 <= i < ops.len() implies !subscribes_to(#[trigger] ops[i], name) by {
            if i < head.len() {
                assert(head[i] == ops[i]);
            }
        }
    }
}

/// A bucket is removed only after a quiet interval. Take a sweep, then any
/// run of operations, then the second look. A bucket that the second look
/// removes was in the registry at the sweep, had no subscriber then and at
/// every point of the run, and no viewer subscribed to it in between. A
/// bucket that a viewer subscribed to during the run is still reachable by
/// name afterwards, in the state the run left it in, history included.
pub proof fn lemma_eviction_needs_a_quiet_interval(
    registry: Map<Seq<char>, ChannelState>,
    ops: Seq<RegistryOp>,
    name: Seq<char>,
)
    requires
        registry_wf(registry),
    ensures
        ({
            let swept = swept_registry(registry);
            let end = apply_ops(swept, ops);
            let after = evicted_registry(end);
            &&& (end.contains_key(name) && !after.contains_key(name)) ==> {
                &&& registry.contains_key(name)
                &&& registry[name].subscribers.len() == 0
                &&& forall|upto: int|
                    0 <= upto <= ops.len() ==> {
                        &&& (#[trigger] apply_ops(swept, ops.take(upto))).contains_key(name)
                        &&& apply_ops(swept, ops.take(upto))[name].subscribers.len() == 0
                    }
                &&& forall|i: int| 0 <= i < ops.len() ==> !subscribes_to(#[trigger] ops[i], name)
            }
            &&& (exists|i: int| 0 <= i < ops.len() && subscribes_to(#[trigger] ops[i], name)) ==> {
                &&& after.contains_key(name)
                &&& after[name] == end[name]
            }
            &&& forall|other: Seq<char>|
                after.contains_key(other) ==> end.contains_key(other) && #[trigger] after[other]
                    == end[other]
        }),
{
    let swept = swept_registry(registry);
    let end = apply_ops(swept, ops);
    let after = evicted_registry(end);
    lemma_ops_keep_wf(registry, ops);
    lemma_ops_keep_wf(swept, ops);
    if end.contains_key(name) && end[name].idle {
        lemma_idle_mark_only_fades(swept, ops, name, 0);
        assert(ops.take(0) =~= Seq::<RegistryOp>::empty());
        assert(swept.contains_key(name));
        assert forall|upto: int| 0 <= upto <= ops.len() implies {
            &&& (#[trigger] apply_ops(swept, ops.take(upto))).contains_key(name)
            &&& apply_ops(swept, ops.take(upto))[name].subscribers.len() == 0
        } by {
            lemma_idle_mark_only_fades(swept, ops, name, upto);
        }
    }
    if exists|i: int| 0 <= i < ops.len() && subscribes_to(#[trigger] ops[i], name) {
        lemma_subscribed_bucket_is_there(swept, ops, name);
    }
}

/// A bucket that a viewer subscribed to during a run of operations is in the
/// registry at the end of the run.
pub proof fn lemma_subscribed_bucket_is_there(
    registry: Map<Seq<char>, ChannelState>,
    ops: Seq<RegistryOp>,
    name: Seq<char>,
)
    requires
        registry_wf(registry),
        exists|i: int| 0 <= i < ops.len() && subscribes_to(#[trigger] ops[i], name),
    ensures
        apply_ops(registry, ops).contains_key(name),
        !apply_ops(registry, ops)[name].idle,
    decreases ops.len(),
{
    let i = choose|i: int| 0 <= i < ops.len() && subscribes_to(#[trigger] ops[i], name);
    let head = ops.drop_last();
    let before = apply_ops(registry, head);
    if i < ops.len() - 1 {
        assert(head[i] == ops[i]);
        lemma_subscribed_bucket_is_there(registry, head, name);
    }
}

} // verus!
