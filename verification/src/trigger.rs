use vstd::prelude::*;
use crate::capability::{CapMatch, Capability};
use crate::event::{Channel, Event};
use crate::key::Key;
use crate::loopback::{Duration, LoopbackHandle, Token};
use crate::tracker::{ExpirationTime, Tracker, TrackerState};

verus! {

/// What an event meant to a trigger.
#[derive(Clone, Copy, Debug, PartialEq, Eq, Structural)]
pub enum TriggerResponse {
    /// No tracker follows the input of this event.
    Unrelated,
    /// Some tracker follows the input of this event. Its state need not have changed.
    Matches,
    /// With this event all trackers became active: the on-activate effects are due.
    Activates,
    /// With this event the trackers stopped being all active: the on-release effects are due.
    Releases,
}

#[derive(Clone, Copy, Debug, PartialEq, Eq, Structural)]
enum TriggerState {
    /// All trackers are active.
    Active,
    /// Not all trackers are active.
    Inactive,
}

/// What a `Trigger` stands for.
#[verifier::ext_equal]
pub struct TriggerView {
    /// Once the first tracker is active, the others have to follow within this time.
    pub period: Option<Duration>,
    /// Whether the trackers have to become active in their order.
    pub sequential: bool,
    pub trackers: Seq<Tracker>,
    /// Whether the trigger counts as activated.
    pub active: bool,
}

/// Whether every tracker is active.
pub open spec fn all_active(trackers: Seq<Tracker>) -> bool {
    forall|i: int| 0 <= i < trackers.len() ==> (#[trigger] trackers[i]).spec_is_active()
}

/// Whether some tracker before position `i` is not active.
pub open spec fn gap_before(trackers: Seq<Tracker>, i: int) -> bool {
    exists|j: int| 0 <= j < i && !(#[trigger] trackers[j]).spec_is_active()
}

/// The trackers once those that are active behind a gap have been marked invalid.
pub open spec fn in_order(trackers: Seq<Tracker>) -> Seq<Tracker> {
    Seq::new(
        trackers.len(),
        |i: int|
            if trackers[i].spec_is_active() && gap_before(trackers, i) {
                trackers[i].with_state(TrackerState::Invalid)
            } else {
                trackers[i]
            },
    )
}

/// The trackers, all active without a time limit.
pub open spec fn pinned(trackers: Seq<Tracker>) -> Seq<Tracker> {
    Seq::new(
        trackers.len(),
        |i: int| trackers[i].with_state(TrackerState::Active(ExpirationTime::Never)),
    )
}

/// A tracker after the wakeup for `token` has arrived.
pub open spec fn woken(tracker: Tracker, token: Token) -> Tracker {
    if tracker.state == TrackerState::Active(ExpirationTime::Until(token)) {
        tracker.with_state(TrackerState::Invalid)
    } else {
        tracker
    }
}

/// The most certain answer that any of `keys` gives for `cap`, if there is a key at all.
pub open spec fn best_match(keys: Seq<Key>, cap: Capability) -> Option<CapMatch> {
    if keys.len() == 0 {
        None
    } else if exists|i: int|
        0 <= i < keys.len() && (#[trigger] keys[i]).spec_matches_cap(cap) == CapMatch::Yes {
        Some(CapMatch::Yes)
    } else if exists|i: int|
        0 <= i < keys.len() && (#[trigger] keys[i]).spec_matches_cap(cap) == CapMatch::Maybe {
        Some(CapMatch::Maybe)
    } else {
        Some(CapMatch::No)
    }
}

impl TriggerView {
    /// Whether some tracker follows the input of `event`.
    pub open spec fn matched(self, event: Event) -> bool {
        exists|i: int|
            0 <= i < self.trackers.len() && (#[trigger] self.trackers[i]).spec_matches(event)
    }

    /// Whether tracker `i` asks for a wakeup when `event` arrives: there is a period, and
    /// the event turns the tracker from inactive to active.
    pub open spec fn wants_token(self, event: Event, i: int) -> bool {
        &&& self.period is Some
        &&& self.trackers[i].spec_matches(event)
        &&& self.trackers[i].spec_activates_by(event)
        &&& self.trackers[i].state is Inactive
    }

    /// How many trackers before position `i` ask for a wakeup when `event` arrives.
    pub open spec fn tokens_before(self, event: Event, i: int) -> nat
        decreases i,
    {
        if i <= 0 {
            0
        } else {
            self.tokens_before(event, i - 1) + if self.wants_token(event, i - 1) {
                1nat
            } else {
                0nat
            }
        }
    }

    /// The delays of the wakeups that `event` makes the trigger ask for, in order.
    pub open spec fn requested(self, event: Event) -> Seq<Duration> {
        Seq::new(self.tokens_before(event, self.trackers.len() as int), |k: int| self.period->0)
    }

    /// Tracker `i` after it has seen `event`, where `first_token` is the next free token.
    pub open spec fn fed_tracker(self, event: Event, first_token: nat, i: int) -> Tracker {
        let tracker = self.trackers[i];
        if !tracker.spec_matches(event) {
            tracker
        } else if !tracker.spec_activates_by(event) {
            tracker.with_state(TrackerState::Inactive)
        } else if tracker.state is Inactive {
            tracker.with_state(
                TrackerState::Active(
                    match self.period {
                        Some(_) => ExpirationTime::Until(
                            Token { id: (first_token + self.tokens_before(event, i)) as u64 },
                        ),
                        None => ExpirationTime::Never,
                    },
                ),
            )
        } else {
            tracker
        }
    }

    /// The trackers after each has seen `event`.
    pub open spec fn fed(self, event: Event, first_token: nat) -> Seq<Tracker> {
        Seq::new(self.trackers.len(), |i: int| self.fed_tracker(event, first_token, i))
    }

    /// The trackers after `event`, before the trigger itself changes state.
    pub open spec fn settled(self, event: Event, first_token: nat) -> Seq<Tracker> {
        if self.sequential {
            in_order(self.fed(event, first_token))
        } else {
            self.fed(event, first_token)
        }
    }

    /// The trigger after `event`, and what it answers. `first_token` is the next free token
    /// of the timer.
    pub open spec fn apply(self, event: Event, first_token: nat) -> (TriggerView, TriggerResponse) {
        if !self.matched(event) {
            (self, TriggerResponse::Unrelated)
        } else {
            let settled = self.settled(event, first_token);
            if !self.active && all_active(settled) {
                (
                    TriggerView { trackers: pinned(settled), active: true, ..self },
                    TriggerResponse::Activates,
                )
            } else if self.active && !all_active(settled) {
                (TriggerView { trackers: settled, active: false, ..self }, TriggerResponse::Releases)
            } else {
                (TriggerView { trackers: settled, ..self }, TriggerResponse::Matches)
            }
        }
    }

    /// Whether some tracker waits for the wakeup with `token`.
    pub open spec fn expires_at(self, token: Token) -> bool {
        exists|i: int|
            0 <= i < self.trackers.len() && (#[trigger] self.trackers[i]).state
                == TrackerState::Active(ExpirationTime::Until(token))
    }

    /// The trigger after the wakeup for `token` has arrived.
    pub open spec fn wakeup(self, token: Token) -> TriggerView {
        TriggerView {
            trackers: Seq::new(self.trackers.len(), |i: int| woken(self.trackers[i], token)),
            ..self
        }
    }

    pub open spec fn has_active_tracker_matching_channel(self, channel: Channel) -> bool {
        exists|i: int|
            0 <= i < self.trackers.len() && (#[trigger] self.trackers[i]).spec_is_active()
                && self.trackers[i].spec_matches_channel(channel)
    }

    pub open spec fn has_tracker_matching_channel(self, channel: Channel) -> bool {
        exists|i: int|
            0 <= i < self.trackers.len() && (#[trigger] self.trackers[i]).spec_matches_channel(
                channel,
            )
    }

    /// The same trigger before it has seen any event.
    pub open spec fn clone_empty(self) -> TriggerView {
        TriggerView {
            trackers: Seq::new(self.trackers.len(), |i: int| self.trackers[i].spec_clone_empty()),
            active: false,
            ..self
        }
    }

    /// The keys of the trackers, in order.
    pub open spec fn keys(self) -> Seq<Key> {
        Seq::new(self.trackers.len(), |i: int| self.trackers[i].key)
    }

    /// Whether at least one tracker exists and all of them are active.
    pub open spec fn held(self) -> bool {
        self.trackers.len() > 0 && all_active(self.trackers)
    }

    /// What holds of a trigger at rest, between any two calls:
    /// it counts as activated exactly while all its trackers are active; while it does,
    /// no tracker has a time limit; and without a period no tracker ever has one.
    pub open spec fn wf(self) -> bool {
        &&& self.active == self.held()
        &&& self.active ==> forall|i: int|
            0 <= i < self.trackers.len() ==> (#[trigger] self.trackers[i]).state
                == TrackerState::Active(ExpirationTime::Never)
        &&& self.period is None ==> forall|i: int|
            0 <= i < self.trackers.len() ==> !((#[trigger] self.trackers[i]).state matches TrackerState::Active(
                ExpirationTime::Until(_),
            ))
    }
}

/// Tells when a set of inputs is held together, and when that ends.
pub struct Trigger {
    period: Option<Duration>,
    sequential: bool,
    trackers: Vec<Tracker>,
    state: TriggerState,
}

impl View for Trigger {
    type V = TriggerView;

    closed spec fn view(&self) -> TriggerView {
        TriggerView {
            period: self.period,
            sequential: self.sequential,
            trackers: self.trackers@,
            active: self.state == TriggerState::Active,
        }
    }
}

/// At most one wakeup is asked for per tracker.
pub proof fn lemma_tokens_before_bounded(trigger: TriggerView, event: Event, i: int)
    requires
        0 <= i,
    ensures
        trigger.tokens_before(event, i) <= i,
    decreases i,
{
    if i > 0 {
        lemma_tokens_before_bounded(trigger, event, i - 1);
    }
}

impl Trigger {
    /// A trigger with one inactive tracker per key.
    pub fn new(keys: Vec<Key>, period: Option<Duration>, sequential: bool) -> (trigger: Trigger)
        ensures
            trigger@ == (TriggerView {
                period,
                sequential,
                trackers: Seq::new(keys@.len(), |i: int| Tracker::spec_new(keys@[i])),
                active: false,
            }),
            trigger@.trackers.len() == keys@.len(),
            trigger@.wf(),
    {
        let mut trackers: Vec<Tracker> = Vec::new();
        let mut i: usize = 0;
        while i < keys.len()
            invariant
                i <= keys.len(),
                trackers@.len() == i,
                forall|j: int| 0 <= j < i ==> trackers@[j] == Tracker::spec_new(keys@[j]),
            decreases keys.len() - i,
        {
            trackers.push(Tracker::new(keys[i]));
            i += 1;
        }
        let trigger = Trigger { period, trackers, sequential, state: TriggerState::Inactive };
        assert(keys@.len() > 0 ==> !trigger@.trackers[0].spec_is_active());
        trigger
    }

    /// Feeds `event` to the trackers and says what it meant to the trigger.
    ///
    /// A tracker that the event activates asks `loopback` for a wakeup, if there is a period.
    /// For that, `loopback` has to have a token left for each tracker.
    pub fn apply(&mut self, event: Event, loopback: &mut LoopbackHandle) -> (response:
        TriggerResponse)
        requires
            old(self)@.period is Some ==> old(self)@.trackers.len() <= old(loopback)@.remaining(),
        ensures
            final(self)@ == old(self)@.apply(event, old(loopback)@.next_token).0,
            response == old(self)@.apply(event, old(loopback)@.next_token).1,
            final(loopback)@ == old(loopback)@.schedule_all(old(self)@.requested(event)),
            old(self)@.wf() ==> final(self)@.wf(),
    {
        let ghost before = self@;
        let ghost timer = loopback@;
        let ghost first = loopback@.next_token;
        proof {
            if before.wf() {
                lemma_apply_keeps_wf(before, event, first);
            }
        }
        let count = self.trackers.len();
        let mut any_tracker_matched: bool = false;

        let mut i: usize = 0;
        while i < count
            invariant
                i <= count,
                count == before.trackers.len(),
                self.trackers@.len() == count,
                self.period == before.period,
                self.sequential == before.sequential,
                (self.state == TriggerState::Active) == before.active,
                before.period is Some ==> count <= timer.remaining(),
                first == timer.next_token,
                forall|j: int| 0 <= j < i ==> self.trackers@[j] == before.fed_tracker(event, first, j),
                forall|j: int| i <= j < count ==> self.trackers@[j] == before.trackers[j],
                loopback@ =~= timer.schedule_all(
                    Seq::new(before.tokens_before(event, i as int), |k: int| before.period->0),
                ),
                any_tracker_matched <==> exists|j: int|
                    0 <= j < i && (#[trigger] before.trackers[j]).spec_matches(event),
            decreases count - i,
        {
            proof {
                lemma_tokens_before_bounded(before, event, i as int);
            }
            if self.trackers[i].matches(&event) {
                any_tracker_matched = true;
                if self.trackers[i].activates_by(event) {
                    match self.trackers[i].state {
                        TrackerState::Inactive => {
                            let expiry = acquire_expiration_token(self.period, loopback);
                            self.trackers[i].state = TrackerState::Active(expiry);
                        },
                        TrackerState::Active(_) | TrackerState::Invalid => {},
                    }
                } else {
                    self.trackers[i].state = TrackerState::Inactive;
                }
            }
            i += 1;
        }
        assert(self.trackers@ =~= before.fed(event, first));

        if !any_tracker_matched {
            assert(self@ =~= before);
            return TriggerResponse::Unrelated;
        }
        if self.sequential {
            let ghost fed = self.trackers@;
            let mut gap: bool = false;
            let mut i: usize = 0;
            while i < count
                invariant
                    i <= count,
                    self.trackers@.len() == count == fed.len(),
                    self.period == before.period,
                    self.sequential == before.sequential,
                    (self.state == TriggerState::Active) == before.active,
                    gap == gap_before(fed, i as int),
                    forall|j: int| 0 <= j < i ==> self.trackers@[j] == in_order(fed)[j],
                    forall|j: int| i <= j < count ==> self.trackers@[j] == fed[j],
                decreases count - i,
            {
                if self.trackers[i].is_active() {
                    if gap {
                        self.trackers[i].state = TrackerState::Invalid;
                    }
                } else {
                    gap = true;
                    assert(!fed[i as int].spec_is_active());
                }
                i += 1;
            }
        }
        let ghost settled = self.trackers@;
        assert(settled == before.settled(event, first));

        let mut all_trackers_active: bool = true;
        let mut i: usize = 0;
        while i < count
            invariant
                i <= count,
                self.trackers@ == settled,
                settled.len() == count,
                all_trackers_active <==> forall|j: int|
                    0 <= j < i ==> (#[trigger] settled[j]).spec_is_active(),
            decreases count - i,
        {
            if !self.trackers[i].is_active() {
                all_trackers_active = false;
            }
            i += 1;
        }

        match (self.state, all_trackers_active) {
            (TriggerState::Inactive, true) => {
                self.state = TriggerState::Active;
                let mut i: usize = 0;
                while i < count
                    invariant
                        i <= count,
                        self.trackers@.len() == count == settled.len(),
                        self.period == before.period,
                        self.sequential == before.sequential,
                        self.state == TriggerState::Active,
                        forall|j: int| 0 <= j < i ==> self.trackers@[j] == pinned(settled)[j],
                        forall|j: int| i <= j < count ==> self.trackers@[j] == settled[j],
                    decreases count - i,
                {
                    self.trackers[i].state = TrackerState::Active(ExpirationTime::Never);
                    i += 1;
                }
                assert(self@ =~= before.apply(event, first).0);
                TriggerResponse::Activates
            },
            (TriggerState::Active, false) => {
                self.state = TriggerState::Inactive;
                TriggerResponse::Releases
            },
            (TriggerState::Active, true) | (TriggerState::Inactive, false) => {
                TriggerResponse::Matches
            },
        }
    }

    /// Invalidates the trackers that wait for the wakeup with `token`, and says whether
    /// there was one.
    pub fn wakeup(&mut self, token: &Token) -> (expired: bool)
        ensures
            final(self)@ == old(self)@.wakeup(*token),
            expired == old(self)@.expires_at(*token),
            old(self)@.wf() ==> final(self)@.wf(),
    {
        let ghost before = self@;
        let count = self.trackers.len();
        let mut result = false;
        let mut i: usize = 0;
        while i < count
            invariant
                i <= count,
                self.trackers@.len() == count == before.trackers.len(),
                self.period == before.period,
                self.sequential == before.sequential,
                (self.state == TriggerState::Active) == before.active,
                forall|j: int| 0 <= j < i ==> self.trackers@[j] == woken(before.trackers[j], *token),
                forall|j: int| i <= j < count ==> self.trackers@[j] == before.trackers[j],
                result <==> exists|j: int|
                    0 <= j < i && (#[trigger] before.trackers[j]).state == TrackerState::Active(
                        ExpirationTime::Until(*token),
                    ),
            decreases count - i,
        {
            match self.trackers[i].state {
                TrackerState::Inactive => {},
                TrackerState::Invalid => {},
                TrackerState::Active(ExpirationTime::Never) => {},
                TrackerState::Active(ExpirationTime::Until(other_token)) => {
                    if *token == other_token {
                        self.trackers[i].state = TrackerState::Invalid;
                        result = true;
                    }
                },
            }
            i += 1;
        }
        assert(self@ =~= before.wakeup(*token));
        proof {
            if before.wf() {
                lemma_wakeup_keeps_wf(before, *token);
            }
        }
        result
    }

    /// Whether an event on `channel` could concern one of the trackers that are active.
    pub fn has_active_tracker_matching_channel(&self, channel: Channel) -> (found: bool)
        ensures
            found == self@.has_active_tracker_matching_channel(channel),
    {
        let mut i: usize = 0;
        while i < self.trackers.len()
            invariant
                i <= self.trackers.len(),
                forall|j: int|
                    0 <= j < i ==> !((#[trigger] self.trackers@[j]).spec_is_active()
                        && self.trackers@[j].spec_matches_channel(channel)),
            decreases self.trackers.len() - i,
        {
            if self.trackers[i].is_active() && self.trackers[i].matches_channel(channel) {
                assert(self@.trackers[i as int].spec_is_active());
                return true;
            }
            i += 1;
        }
        false
    }

    /// Whether an event on `channel` could concern one of the trackers.
    pub fn has_tracker_matching_channel(&self, channel: Channel) -> (found: bool)
        ensures
            found == self@.has_tracker_matching_channel(channel),
    {
        let mut i: usize = 0;
        while i < self.trackers.len()
            invariant
                i <= self.trackers.len(),
                forall|j: int|
                    0 <= j < i ==> !(#[trigger] self.trackers@[j]).spec_matches_channel(channel),
            decreases self.trackers.len() - i,
        {
            if self.trackers[i].matches_channel(channel) {
                assert(self@.trackers[i as int].spec_matches_channel(channel));
                return true;
            }
            i += 1;
        }
        false
    }

    /// A trigger with the same keys, ranges, period and order that has seen no event.
    pub fn clone_empty(&self) -> (fresh: Trigger)
        ensures
            fresh@ == self@.clone_empty(),
            fresh@.wf(),
            fresh@.period == self@.period,
            fresh@.sequential == self@.sequential,
            fresh@.keys() == self@.keys(),
            !fresh@.active,
            fresh@.trackers.len() == self@.trackers.len(),
            forall|i: int|
                0 <= i < self@.trackers.len() ==> {
                    &&& (#[trigger] fresh@.trackers[i]).key == self@.trackers[i].key
                    &&& fresh@.trackers[i].range == self@.trackers[i].range
                    &&& fresh@.trackers[i].state == TrackerState::Inactive
                },
    {
        let mut trackers: Vec<Tracker> = Vec::new();
        let mut i: usize = 0;
        while i < self.trackers.len()
            invariant
                i <= self.trackers.len(),
                trackers@.len() == i,
                forall|j: int| 0 <= j < i ==> trackers@[j] == self.trackers@[j].spec_clone_empty(),
            decreases self.trackers.len() - i,
        {
            trackers.push(self.trackers[i].clone_empty());
            i += 1;
        }
        let fresh = Trigger {
            sequential: self.sequential,
            period: self.period,
            trackers,
            state: TriggerState::Inactive,
        };
        assert(fresh@.trackers.len() > 0 ==> !fresh@.trackers[0].spec_is_active());
        fresh
    }

    /// The time within which all trackers have to become active, if it is limited.
    pub fn period(&self) -> (period: Option<Duration>)
        ensures
            period == self@.period,
    {
        self.period
    }

    /// Whether the trackers have to become active in their order.
    pub fn is_sequential(&self) -> (sequential: bool)
        ensures
            sequential == self@.sequential,
    {
        self.sequential
    }

    /// Whether the trigger counts as activated.
    pub fn is_active(&self) -> (active: bool)
        ensures
            active == self@.active,
    {
        match self.state {
            TriggerState::Active => true,
            TriggerState::Inactive => false,
        }
    }

    /// The keys of the trackers, in order.
    pub fn keys(&self) -> (keys: Vec<Key>)
        ensures
            keys@ == self@.keys(),
    {
        let mut keys: Vec<Key> = Vec::new();
        let mut i: usize = 0;
        while i < self.trackers.len()
            invariant
                i <= self.trackers.len(),
                keys@.len() == i,
                forall|j: int| 0 <= j < i ==> keys@[j] == self.trackers@[j].key,
            decreases self.trackers.len() - i,
        {
            keys.push(self.trackers[i].key);
            i += 1;
        }
        keys
    }

    /// The states of the trackers, in order.
    pub fn tracker_states(&self) -> (states: Vec<TrackerState>)
        ensures
            states@.len() == self@.trackers.len(),
            forall|i: int| 0 <= i < states@.len() ==> states@[i] == self@.trackers[i].state,
    {
        let mut states: Vec<TrackerState> = Vec::new();
        let mut i: usize = 0;
        while i < self.trackers.len()
            invariant
                i <= self.trackers.len(),
                states@.len() == i,
                forall|j: int| 0 <= j < i ==> states@[j] == self.trackers@[j].state,
            decreases self.trackers.len() - i,
        {
            states.push(self.trackers[i].state);
            i += 1;
        }
        states
    }

    /// How many trackers there are.
    pub fn tracker_count(&self) -> (count: usize)
        ensures
            count == self@.trackers.len(),
    {
        self.trackers.len()
    }

    /// The most certain answer that any tracker's key gives for `cap`, if there is a tracker.
    pub fn matches_cap(&self, cap: &Capability) -> (best: Option<CapMatch>)
        ensures
            best == best_match(self@.keys(), *cap),
    {
        let ghost keys = self@.keys();
        let mut best: Option<CapMatch> = None;
        let mut i: usize = 0;
        while i < self.trackers.len()
            invariant
                i <= self.trackers.len(),
                keys == self@.keys(),
                keys.len() == self.trackers@.len(),
                best == best_match(keys.take(i as int), *cap),
            decreases self.trackers.len() - i,
        {
            let answer = self.trackers[i].key.matches_cap(cap);
            proof {
                lemma_best_match_push(keys.take(i as int), keys[i as int], *cap);
                assert(keys.take(i as int).push(keys[i as int]) =~= keys.take(i + 1));
            }
            best = match best {
                Some(so_far) => Some(so_far.stronger(answer)),
                None => Some(answer),
            };
            i += 1;
        }
        assert(keys.take(i as int) =~= keys);
        best
    }
}

/// With one more key, the best answer is the stronger of the old best and the new answer.
pub proof fn lemma_best_match_push(keys: Seq<Key>, key: Key, cap: Capability)
    ensures
        best_match(keys.push(key), cap) == Some(
            match best_match(keys, cap) {
                Some(so_far) => so_far.spec_stronger(key.spec_matches_cap(cap)),
                None => key.spec_matches_cap(cap),
            },
        ),
{
    let more = keys.push(key);
    assert(more[keys.len() as int] == key);
    assert forall|i: int| 0 <= i < keys.len() implies more[i] == keys[i] by {}
}

/// Asks the timer for a wakeup after `period`, if there is one, and says until when a
/// tracker that becomes active now stays valid.
pub fn acquire_expiration_token(period: Option<Duration>, loopback: &mut LoopbackHandle) -> (expiry:
    ExpirationTime)
    requires
        period is Some ==> old(loopback)@.remaining() >= 1,
    ensures
        match period {
            Some(duration) => {
                &&& expiry == ExpirationTime::Until(old(loopback)@.token_at(0))
                &&& final(loopback)@ == old(loopback)@.schedule(duration)
            },
            None => {
                &&& expiry == ExpirationTime::Never
                &&& final(loopback)@ == old(loopback)@
            },
        },
{
    match period {
        Some(duration) => ExpirationTime::Until(loopback.schedule_wakeup_in(duration)),
        None => ExpirationTime::Never,
    }
}

/// An event changes neither the period, nor the order, nor the number of trackers, nor
/// their keys and ranges.
pub proof fn lemma_apply_keeps_shape(trigger: TriggerView, event: Event, first_token: nat)
    ensures
        trigger.apply(event, first_token).0.period == trigger.period,
        trigger.apply(event, first_token).0.sequential == trigger.sequential,
        trigger.apply(event, first_token).0.trackers.len() == trigger.trackers.len(),
        trigger.apply(event, first_token).0.keys() == trigger.keys(),
        forall|i: int|
            0 <= i < trigger.trackers.len() ==> (#[trigger] trigger.apply(
                event,
                first_token,
            ).0.trackers[i]).range == trigger.trackers[i].range,
{
    assert(trigger.apply(event, first_token).0.keys() =~= trigger.keys());
}

/// An event leaves a trigger in its resting condition.
pub proof fn lemma_apply_keeps_wf(trigger: TriggerView, event: Event, first_token: nat)
    requires
        trigger.wf(),
    ensures
        trigger.apply(event, first_token).0.wf(),
{
    let after = trigger.apply(event, first_token).0;
    if trigger.matched(event) {
        let settled = trigger.settled(event, first_token);
        if trigger.active && all_active(settled) {
            assert forall|i: int| 0 <= i < settled.len() implies (#[trigger] settled[i]).state
                == TrackerState::Active(ExpirationTime::Never) by {
                assert(settled[i].spec_is_active());
            }
        }
        if !trigger.active && all_active(settled) {
            assert(all_active(after.trackers));
        }
    }
}

/// A wakeup leaves a trigger in its resting condition.
pub proof fn lemma_wakeup_keeps_wf(trigger: TriggerView, token: Token)
    requires
        trigger.wf(),
    ensures
        trigger.wakeup(token).wf(),
{
    let after = trigger.wakeup(token);
    if trigger.active {
        assert(after.trackers =~= trigger.trackers);
    } else if trigger.trackers.len() > 0 {
        let k = choose|k: int|
            0 <= k < trigger.trackers.len() && !(#[trigger] trigger.trackers[k]).spec_is_active();
        assert(!after.trackers[k].spec_is_active());
    }
}

} // verus!
