//! Per-bucket admission control: a fixed one-minute window with a ceiling,
//! and a suspension that stays once it has tripped.

use vstd::prelude::*;

verus! {

/// How many log lines a bucket may take in one minute unless told otherwise.
pub const MAX_LOG_LINES_PER_MINUTE: u64 = 1000;

/// The state of a rate controller as plain numbers.
pub struct RateState {
    /// Most lines that one minute may take.
    pub ceiling: nat,
    /// Set once the ceiling was exceeded; nothing here clears it.
    pub suspended: bool,
    /// The minute (seconds since the epoch divided by sixty) that `count` belongs to.
    pub minute: nat,
    /// Lines taken so far in `minute`.
    pub count: nat,
}

/// The largest count the controller can hold.
pub open spec fn count_limit() -> nat {
    u64::MAX as nat
}

impl RateState {
    /// An active controller never holds more than its ceiling.
    pub open spec fn wf(self) -> bool {
        &&& self.ceiling <= count_limit()
        &&& self.count <= count_limit()
        &&& !self.suspended ==> self.count <= self.ceiling
    }

    /// A controller that has seen nothing yet.
    pub open spec fn fresh(ceiling: nat) -> RateState {
        RateState { ceiling, suspended: false, minute: 0, count: 0 }
    }

    /// The count that `lines` more lines at `now_secs` would bring the window to:
    /// a new minute starts from `lines` alone, the same minute adds to what it has.
    pub open spec fn updated_count(self, now_secs: nat, lines: nat) -> nat {
        if now_secs / 60 != self.minute {
            lines
        } else {
            self.count + lines
        }
    }

    /// Whether `lines` more lines at `now_secs` are admitted.
    pub open spec fn accepts(self, now_secs: nat, lines: nat) -> bool {
        !self.suspended && self.updated_count(now_secs, lines) <= self.ceiling
    }

    /// The state after `lines` more lines were offered at `now_secs`.
    ///
    /// A suspended controller does not change. An active one moves to the
    /// minute of `now_secs`, takes the updated count (held at the largest
    /// count it can store), and suspends when that count is over the ceiling.
    pub open spec fn record(self, now_secs: nat, lines: nat) -> RateState {
        if self.suspended {
            self
        } else {
            let updated = self.updated_count(now_secs, lines);
            RateState {
                ceiling: self.ceiling,
                suspended: updated > self.ceiling,
                minute: now_secs / 60,
                count: if updated > count_limit() {
                    count_limit()
                } else {
                    updated
                },
            }
        }
    }
}

/// One offer to the controller: when it came and how many lines it held.
pub struct Offer {
    pub now_secs: nat,
    pub lines: nat,
}

/// The state after a run of offers, taken in order.
pub open spec fn record_all(start: RateState, offers: Seq<Offer>) -> RateState
    decreases offers.len(),
{
    if offers.len() == 0 {
        start
    } else {
        record_all(start, offers.drop_last()).record(offers.last().now_secs, offers.last().lines)
    }
}

/// Whether offer `i` of the run was admitted when its turn came.
pub open spec fn accepted_at(start: RateState, offers: Seq<Offer>, i: int) -> bool {
    record_all(start, offers.take(i)).accepts(offers[i].now_secs, offers[i].lines)
}

/// All lines offered in the run.
pub open spec fn total_lines(offers: Seq<Offer>) -> nat
    decreases offers.len(),
{
    if offers.len() == 0 {
        0
    } else {
        total_lines(offers.drop_last()) + offers.last().lines
    }
}

/// Every offer of the run falls into minute `minute`.
pub open spec fn all_in_minute(offers: Seq<Offer>, minute: nat) -> bool {
    forall|i: int| 0 <= i < offers.len() ==> (#[trigger] offers[i]).now_secs / 60 == minute
}

/// What the window of `minute` already holds in `state`.
pub open spec fn carried_into(state: RateState, minute: nat) -> nat {
    if state.minute == minute {
        state.count
    } else {
        0
    }
}

/// Admission state of one bucket.
pub struct RateController {
    ceiling: u64,
    suspended: bool,
    minute: u64,
    count: u64,
}

impl View for RateController {
    type V = RateState;

    closed spec fn view(&self) -> RateState {
        RateState {
            ceiling: self.ceiling as nat,
            suspended: self.suspended,
            minute: self.minute as nat,
            count: self.count as nat,
        }
    }
}

impl RateController {
    /// Holds when the controller is in a state that its own operations can reach.
    pub open spec fn wf(&self) -> bool {
        self@.wf()
    }

    /// A controller with the given ceiling that has seen nothing yet.
    pub fn new(ceiling: u64) -> (rate: RateController)
        ensures
            rate.wf(),
            rate@ == RateState::fresh(ceiling as nat),
    {
        RateController { ceiling, suspended: false, minute: 0, count: 0 }
    }

    /// Whether the controller has tripped.
    pub fn is_suspended(&self) -> (suspended: bool)
        ensures
            suspended == self@.suspended,
    {
        self.suspended
    }

    /// The ceiling the controller was made with.
    pub fn ceiling(&self) -> (ceiling: u64)
        ensures
            ceiling == self@.ceiling,
    {
        self.ceiling
    }

    /// Offers `lines` more lines at `now_secs` seconds since the epoch and
    /// says whether they are admitted.
    pub fn record_at(&mut self, now_secs: u64, lines: u64) -> (accepted: bool)
        requires
            old(self).wf(),
        ensures
            final(self).wf(),
            final(self)@ == old(self)@.record(now_secs as nat, lines as nat),
            accepted == old(self)@.accepts(now_secs as nat, lines as nat),
    {
        if self.suspended {
            return false;
        }
        let now_minute = now_secs / 60;
        let updated: Option<u64> = if now_minute != self.minute {
            Some(lines)
        } else {
            self.count.checked_add(lines)
        };
        self.minute = now_minute;
        match updated {
            Some(count) => {
                self.count = count;
                if count > self.ceiling {
                    self.suspended = true;
                    return false;
                }
                true
            },
            None => {
                self.count = u64::MAX;
                self.suspended = true;
                false
            },
        }
    }
}

/// Whatever is offered, a reachable state stays reachable and keeps its ceiling.
pub proof fn lemma_record_keeps_wf(state: RateState, now_secs: nat, lines: nat)
    requires
        state.wf(),
    ensures
        state.record(now_secs, lines).wf(),
        state.record(now_secs, lines).ceiling == state.ceiling,
        state.suspended ==> state.record(now_secs, lines).suspended,
{
}

/// A suspended controller turns every offer down and stays as it is.
pub proof fn lemma_suspension_is_sticky(state: RateState, offers: Seq<Offer>)
    requires
        state.suspended,
    ensures
        record_all(state, offers) == state,
        forall|i: int| 0 <= i < offers.len() ==> !accepted_at(state, offers, i),
    decreases offers.len(),
{
    if offers.len() > 0 {
        lemma_suspension_is_sticky(state, offers.drop_last());
        assert forall|i: int| 0 <= i < offers.len() implies !accepted_at(state, offers, i) by {
            lemma_suspension_is_sticky(state, offers.take(i));
        }
    }
}

/// The sum of a run is at least the sum of any of its beginnings.
pub proof fn lemma_total_lines_grows(offers: Seq<Offer>, i: int)
    requires
        0 <= i <= offers.len(),
    ensures
        total_lines(offers.take(i)) <= total_lines(offers),
    decreases offers.len(),
{
    if i == offers.len() {
        assert(offers.take(i) =~= offers);
    } else {
        lemma_total_lines_grows(offers.drop_last(), i);
        assert(offers.drop_last().take(i) =~= offers.take(i));
    }
}

/// Within one minute the window only counts: after a run of offers that all
/// fall into `minute`, an active controller is still active exactly when what
/// the window held before plus all lines offered is within the ceiling, and
/// then it holds that sum.
pub proof fn lemma_one_minute(state: RateState, offers: Seq<Offer>, minute: nat)
    requires
        state.wf(),
        !state.suspended,
        all_in_minute(offers, minute),
    ensures
        record_all(state, offers).wf(),
        record_all(state, offers).ceiling == state.ceiling,
        !record_all(state, offers).suspended <==> carried_into(state, minute) + total_lines(offers)
            <= state.ceiling,
        !record_all(state, offers).suspended && offers.len() > 0 ==> {
            &&& record_all(state, offers).minute == minute
            &&& record_all(state, offers).count == carried_into(state, minute) + total_lines(
                offers,
            )
        },
    decreases offers.len(),
{
    if offers.len() > 0 {
        let before = offers.drop_last();
        assert(all_in_minute(before, minute)) by {
            assert forall|i: int| 0 <= i < before.len() implies (#[trigger] before[i]).now_secs
                / 60 == minute by {
                assert(before[i] == offers[i]);
            }
        }
        lemma_one_minute(state, before, minute);
        assert(offers.last() == offers[offers.len() - 1]);
        if record_all(state, before).suspended {
            lemma_suspension_is_sticky(record_all(state, before), seq![offers.last()]);
        }
    }
}

/// Taking exactly the ceiling within one minute leaves the controller active
/// with every offer admitted; one line more in that minute suspends it, and
/// from then on every offer is turned down.
pub proof fn lemma_ceiling_is_exact(
    state: RateState,
    offers: Seq<Offer>,
    minute: nat,
    later: Seq<Offer>,
)
    requires
        state.wf(),
        !state.suspended,
        all_in_minute(offers, minute),
    ensures
        carried_into(state, minute) + total_lines(offers) <= state.ceiling ==> {
            &&& !record_all(state, offers).suspended
            &&& forall|i: int| 0 <= i < offers.len() ==> accepted_at(state, offers, i)
        },
        carried_into(state, minute) + total_lines(offers) > state.ceiling ==> {
            &&& record_all(state, offers).suspended
            &&& record_all(record_all(state, offers), later) == record_all(state, offers)
            &&& forall|i: int|
                0 <= i < later.len() ==> !accepted_at(record_all(state, offers), later, i)
        },
{
    lemma_one_minute(state, offers, minute);
    if carried_into(state, minute) + total_lines(offers) <= state.ceiling {
        assert forall|i: int| 0 <= i < offers.len() implies accepted_at(state, offers, i) by {
            let head = offers.take(i);
            let upto = offers.take(i + 1);
            assert(all_in_minute(head, minute)) by {
                assert forall|j: int| 0 <= j < head.len() implies (#[trigger] head[j]).now_secs
                    / 60 == minute by {
                    assert(head[j] == offers[j]);
                }
            }
            assert(all_in_minute(upto, minute)) by {
                assert forall|j: int| 0 <= j < upto.len() implies (#[trigger] upto[j]).now_secs
                    / 60 == minute by {
                    assert(upto[j] == offers[j]);
                }
            }
            lemma_total_lines_grows(offers, i + 1);
            lemma_one_minute(state, head, minute);
            lemma_one_minute(state, upto, minute);
            assert(upto.drop_last() =~= head);
            assert(upto.last() == offers[i]);
            assert(offers[i].now_secs / 60 == minute);
        }
    } else {
        lemma_suspension_is_sticky(record_all(state, offers), later);
    }
}

/// The window does not slide: a run of at least one offer in one minute and
/// a run in the next are each held against the ceiling on their own, so both
/// are admitted in full when each stays within it. Offers up to the ceiling
/// at second 59 of a minute and as many again at second 1 of the next are
/// such runs.
pub proof fn lemma_minute_boundary(
    state: RateState,
    minute: nat,
    first: Seq<Offer>,
    second: Seq<Offer>,
)
    requires
        state.wf(),
        !state.suspended,
        all_in_minute(first, minute),
        all_in_minute(second, minute + 1),
        first.len() > 0,
        carried_into(state, minute) + total_lines(first) <= state.ceiling,
        total_lines(second) <= state.ceiling,
    ensures
        forall|i: int| 0 <= i < first.len() ==> accepted_at(state, first, i),
        forall|i: int|
            0 <= i < second.len() ==> accepted_at(record_all(state, first), second, i),
        !record_all(record_all(state, first), second).suspended,
{
    lemma_ceiling_is_exact(state, first, minute, seq![]);
    lemma_one_minute(state, first, minute);
    let mid = record_all(state, first);
    assert(carried_into(mid, minute + 1) == 0);
    lemma_ceiling_is_exact(mid, second, minute + 1, seq![]);
}

} // verus!
