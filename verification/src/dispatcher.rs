use vstd::prelude::*;
use crate::capability::{CapMatch, Capability};
use crate::event::{Event, EventFlag};
use crate::key::Key;
use crate::range::Range;
use crate::trigger::{best_match, Trigger, TriggerResponse};

verus! {

/// The values of a synthesized key: released and pressed.
pub open spec fn binary_range() -> Range {
    Range { min: Some(0i32), max: Some(1i32) }
}

/// The event that presses `key` in the place of `origin`. It cannot be withheld.
pub open spec fn press(key: Key, origin: Event) -> Event {
    key.spec_merge(origin).with_value(1).unflagged(EventFlag::Withholdable)
}

/// The event that releases `key` in the place of `origin`. It cannot be withheld.
pub open spec fn release(key: Key, origin: Event) -> Event {
    key.spec_merge(origin).with_value(0).unflagged(EventFlag::Withholdable)
}

/// What a device that has `cap` can produce through `key`: the key's input, pressed or released.
pub open spec fn synthesized_cap(key: Key, cap: Capability) -> Capability {
    key.spec_merge_cap(cap).with_range(binary_range())
}

/// The items of `items`, each kept where it first occurs.
pub open spec fn distinct<T>(items: Seq<T>) -> Seq<T>
    decreases items.len(),
{
    if items.len() == 0 {
        Seq::empty()
    } else {
        let before = distinct(items.drop_last());
        if before.contains(items.last()) {
            before
        } else {
            before.push(items.last())
        }
    }
}

/// What an `EventDispatcher` stands for.
#[verifier::ext_equal]
pub struct DispatcherView {
    /// The keys to press on activation and release afterwards.
    pub send_keys: Seq<Key>,
    /// The event of the last activation.
    pub activating_event: Option<Event>,
}

impl DispatcherView {
    /// One press per send-key, in their order.
    pub open spec fn presses(self, origin: Event) -> Seq<Event> {
        Seq::new(self.send_keys.len(), |i: int| press(self.send_keys[i], origin))
    }

    /// One release per send-key, last key first.
    pub open spec fn releases(self, origin: Event) -> Seq<Event> {
        Seq::new(
            self.send_keys.len(),
            |i: int| release(self.send_keys[self.send_keys.len() - 1 - i], origin),
        )
    }

    /// The event whose place the releases take: that of the last activation, or `event`
    /// where none is on record.
    pub open spec fn origin(self, event: Event) -> Event {
        match self.activating_event {
            Some(activating_event) => activating_event,
            None => event,
        }
    }

    /// The events that leave the dispatcher for `event`, in order.
    pub open spec fn emitted(self, event: Event, response: TriggerResponse) -> Seq<Event> {
        match response {
            TriggerResponse::Activates => seq![event] + self.presses(event),
            TriggerResponse::Releases => self.releases(self.origin(event)).push(event),
            TriggerResponse::Matches | TriggerResponse::Unrelated => seq![event],
        }
    }

    /// The dispatcher after `event`.
    pub open spec fn map_event(self, event: Event, response: TriggerResponse) -> DispatcherView {
        match response {
            TriggerResponse::Activates => DispatcherView { activating_event: Some(event), ..self },
            _ => self,
        }
    }

    /// One capability per send-key, in their order, for a device that has `cap`.
    pub open spec fn synthesized(self, cap: Capability) -> Seq<Capability> {
        Seq::new(self.send_keys.len(), |i: int| synthesized_cap(self.send_keys[i], cap))
    }

    /// Whether a trigger with `keys` may react to the events that `cap` stands for.
    pub open spec fn reacts_to(keys: Seq<Key>, cap: Capability) -> bool {
        match best_match(keys, cap) {
            Some(answer) => answer.spec_is_possible(),
            None => false,
        }
    }

    /// The synthesized capabilities of all of `caps` that a trigger with `keys` may react to,
    /// in the order of `caps`, repetitions included.
    pub open spec fn candidates(self, keys: Seq<Key>, caps: Seq<Capability>) -> Seq<Capability>
        decreases caps.len(),
    {
        if caps.len() == 0 {
            Seq::empty()
        } else {
            self.candidates(keys, caps.drop_last()) + if Self::reacts_to(keys, caps.last()) {
                self.synthesized(caps.last())
            } else {
                Seq::empty()
            }
        }
    }

    /// The capabilities that the send-keys add to those in `caps`.
    pub open spec fn additional_caps(self, keys: Seq<Key>, caps: Seq<Capability>) -> Seq<
        Capability,
    > {
        distinct(self.candidates(keys, caps))
    }

    /// Whether `cap` is what a send-key gives for one of `caps` that some key of `keys`
    /// answers with `Yes` or `Maybe`.
    pub open spec fn is_made_for_match(
        self,
        keys: Seq<Key>,
        caps: Seq<Capability>,
        cap: Capability,
    ) -> bool {
        exists|k: int, j: int, t: int|
            #![trigger synthesized_cap(self.send_keys[k], caps[j]), keys[t]]
            {
                &&& 0 <= k < self.send_keys.len()
                &&& 0 <= j < caps.len()
                &&& 0 <= t < keys.len()
                &&& keys[t].spec_matches_cap(caps[j]).spec_is_possible()
                &&& cap == synthesized_cap(self.send_keys[k], caps[j])
            }
    }

    /// The same dispatcher with no activation on record.
    pub open spec fn clone_empty(self) -> DispatcherView {
        DispatcherView { activating_event: None, ..self }
    }
}

/// Presses and releases keys of its own when a trigger activates and releases.
pub struct EventDispatcher {
    send_keys: Vec<Key>,
    activating_event: Option<Event>,
}

impl View for EventDispatcher {
    type V = DispatcherView;

    closed spec fn view(&self) -> DispatcherView {
        DispatcherView { send_keys: self.send_keys@, activating_event: self.activating_event }
    }
}

/// The dispatcher after the events of `course`, each with the answer of the trigger to it.
pub open spec fn after_course(
    dispatcher: DispatcherView,
    course: Seq<(Event, TriggerResponse)>,
) -> DispatcherView
    decreases course.len(),
{
    if course.len() == 0 {
        dispatcher
    } else {
        after_course(dispatcher, course.drop_last()).map_event(course.last().0, course.last().1)
    }
}

/// The event on record is that of the latest activation: it is set with an `Activates` and
/// stays until the next one. Without any `Activates` the record stays as it was.
pub proof fn law_record_is_latest_activation(
    dispatcher: DispatcherView,
    course: Seq<(Event, TriggerResponse)>,
)
    ensures
        after_course(dispatcher, course).send_keys == dispatcher.send_keys,
        (forall|k: int| 0 <= k < course.len() ==> (#[trigger] course[k]).1 != TriggerResponse::Activates)
            ==> after_course(dispatcher, course).activating_event == dispatcher.activating_event,
        forall|k: int|
            0 <= k < course.len() && (#[trigger] course[k]).1 == TriggerResponse::Activates && (forall|
                n: int,
            |
                k < n < course.len() ==> (#[trigger] course[n]).1 != TriggerResponse::Activates)
                ==> after_course(dispatcher, course).activating_event == Some(course[k].0),
    decreases course.len(),
{
    if course.len() > 0 {
        let before = course.drop_last();
        law_record_is_latest_activation(dispatcher, before);
        assert forall|k: int|
            0 <= k < course.len() && (#[trigger] course[k]).1 == TriggerResponse::Activates && (forall|
                n: int,
            |
                k < n < course.len() ==> (#[trigger] course[n]).1
                    != TriggerResponse::Activates) implies after_course(
            dispatcher,
            course,
        ).activating_event == Some(course[k].0) by {
            if k < course.len() - 1 {
                assert(before[k] == course[k]);
                assert forall|n: int| k < n < before.len() implies (#[trigger] before[n]).1
                    != TriggerResponse::Activates by {
                    assert(before[n] == course[n]);
                }
            }
        }
        if forall|k: int|
            0 <= k < course.len() ==> (#[trigger] course[k]).1 != TriggerResponse::Activates {
            assert forall|k: int| 0 <= k < before.len() implies (#[trigger] before[k]).1
                != TriggerResponse::Activates by {
                assert(before[k] == course[k]);
            }
        }
    }
}

/// `distinct` grows by the new item exactly when it has not occurred before.
pub proof fn lemma_distinct_push<T>(items: Seq<T>, item: T)
    ensures
        distinct(items.push(item)) == if distinct(items).contains(item) {
            distinct(items)
        } else {
            distinct(items).push(item)
        },
{
    assert(items.push(item).drop_last() =~= items);
}

/// `distinct` holds the same items as the sequence it is made of, each once.
pub proof fn lemma_distinct_keeps_items<T>(items: Seq<T>)
    ensures
        distinct(items).no_duplicates(),
        forall|item: T|
            #![trigger distinct(items).contains(item)]
            #![trigger items.contains(item)]
            distinct(items).contains(item) <==> items.contains(item),
    decreases items.len(),
{
    if items.len() > 0 {
        let rest = items.drop_last();
        let last = items.last();
        lemma_distinct_keeps_items(rest);
        let before = distinct(rest);
        let all = distinct(items);
        assert forall|item: T| all.contains(item) <==> items.contains(item) by {
            if all.contains(item) {
                let i = choose|i: int| 0 <= i < all.len() && all[i] == item;
                if i < before.len() {
                    assert(before.contains(item));
                    assert(rest.contains(item));
                } else {
                    assert(items[items.len() - 1] == item);
                }
            }
            if items.contains(item) {
                let j = choose|j: int| 0 <= j < items.len() && items[j] == item;
                if j < rest.len() {
                    assert(rest[j] == item);
                    assert(before.contains(item));
                    let i = choose|i: int| 0 <= i < before.len() && before[i] == item;
                    assert(all[i] == item);
                } else if !before.contains(item) {
                    assert(all[before.len() as int] == item);
                }
            }
        }
        if !before.contains(last) {
            assert forall|i: int, j: int|
                0 <= i < all.len() && 0 <= j < all.len() && i != j implies all[i] != all[j] by {
                if i < before.len() && j < before.len() {
                    assert(before[i] != before[j]);
                } else if i < before.len() {
                    assert(before[i] == all[i]);
                } else {
                    assert(before[j] == all[j]);
                }
            }
        }
    }
}

/// Every candidate comes from a send-key and from a capability that the trigger may react
/// to, and can only be released or pressed.
pub proof fn lemma_candidates_have_origin(
    dispatcher: DispatcherView,
    keys: Seq<Key>,
    caps: Seq<Capability>,
    i: int,
) -> (origin: (int, int))
    requires
        0 <= i < dispatcher.candidates(keys, caps).len(),
    ensures
        0 <= origin.0 < dispatcher.send_keys.len(),
        0 <= origin.1 < caps.len(),
        DispatcherView::reacts_to(keys, caps[origin.1]),
        dispatcher.candidates(keys, caps)[i] == synthesized_cap(
            dispatcher.send_keys[origin.0],
            caps[origin.1],
        ),
        dispatcher.candidates(keys, caps)[i].value_range == binary_range(),
    decreases caps.len(),
{
    let rest = dispatcher.candidates(keys, caps.drop_last());
    if i < rest.len() {
        let origin = lemma_candidates_have_origin(dispatcher, keys, caps.drop_last(), i);
        origin
    } else {
        (i - rest.len(), caps.len() - 1)
    }
}

/// Every send-key yields a candidate for every capability that the trigger may react to.
pub proof fn lemma_candidates_are_complete(
    dispatcher: DispatcherView,
    keys: Seq<Key>,
    caps: Seq<Capability>,
    k: int,
    j: int,
)
    requires
        0 <= k < dispatcher.send_keys.len(),
        0 <= j < caps.len(),
        DispatcherView::reacts_to(keys, caps[j]),
    ensures
        dispatcher.candidates(keys, caps).contains(synthesized_cap(dispatcher.send_keys[k], caps[j])),
    decreases caps.len(),
{
    let rest = dispatcher.candidates(keys, caps.drop_last());
    let all = dispatcher.candidates(keys, caps);
    let wanted = synthesized_cap(dispatcher.send_keys[k], caps[j]);
    if j < caps.len() - 1 {
        lemma_candidates_are_complete(dispatcher, keys, caps.drop_last(), k, j);
        let i = choose|i: int| 0 <= i < rest.len() && rest[i] == wanted;
        assert(all[i] == wanted);
    } else {
        assert(all[rest.len() + k] == wanted);
    }
}

/// A trigger may react to a capability exactly if one of its keys does not rule it out.
pub proof fn lemma_reacts_through_a_key(keys: Seq<Key>, cap: Capability)
    ensures
        DispatcherView::reacts_to(keys, cap) <==> exists|t: int|
            0 <= t < keys.len() && (#[trigger] keys[t]).spec_matches_cap(cap).spec_is_possible(),
{
}

/// Every capability that the send-keys add is that of a send-key, made for a capability that
/// some key of the trigger answers with `Yes` or `Maybe`, and its values are 0 and 1.
/// None is added twice.
pub proof fn law_additional_caps_have_origin(
    dispatcher: DispatcherView,
    keys: Seq<Key>,
    caps: Seq<Capability>,
    n: int,
) -> (origin: (int, int, int))
    requires
        0 <= n < dispatcher.additional_caps(keys, caps).len(),
    ensures
        0 <= origin.0 < dispatcher.send_keys.len(),
        0 <= origin.1 < caps.len(),
        0 <= origin.2 < keys.len(),
        keys[origin.2].spec_matches_cap(caps[origin.1]) == CapMatch::Yes || keys[origin.2].spec_matches_cap(
            caps[origin.1],
        ) == CapMatch::Maybe,
        dispatcher.additional_caps(keys, caps)[n] == synthesized_cap(
            dispatcher.send_keys[origin.0],
            caps[origin.1],
        ),
        dispatcher.additional_caps(keys, caps)[n].value_range == binary_range(),
        dispatcher.additional_caps(keys, caps).no_duplicates(),
{
    let candidates = dispatcher.candidates(keys, caps);
    let added = dispatcher.additional_caps(keys, caps);
    lemma_distinct_keeps_items(candidates);
    assert(added.contains(added[n]));
    let i = choose|i: int| 0 <= i < candidates.len() && candidates[i] == added[n];
    let from = lemma_candidates_have_origin(dispatcher, keys, caps, i);
    lemma_reacts_through_a_key(keys, caps[from.1]);
    let t = choose|t: int|
        0 <= t < keys.len() && (#[trigger] keys[t]).spec_matches_cap(caps[from.1]).spec_is_possible();
    (from.0, from.1, t)
}

/// For every capability that some key of the trigger answers with `Yes` or `Maybe`, every
/// send-key adds its capability.
pub proof fn law_additional_caps_are_complete(
    dispatcher: DispatcherView,
    keys: Seq<Key>,
    caps: Seq<Capability>,
    k: int,
    j: int,
    t: int,
)
    requires
        0 <= k < dispatcher.send_keys.len(),
        0 <= j < caps.len(),
        0 <= t < keys.len(),
        keys[t].spec_matches_cap(caps[j]) == CapMatch::Yes || keys[t].spec_matches_cap(caps[j])
            == CapMatch::Maybe,
    ensures
        dispatcher.additional_caps(keys, caps).contains(
            synthesized_cap(dispatcher.send_keys[k], caps[j]),
        ),
{
    lemma_reacts_through_a_key(keys, caps[j]);
    lemma_candidates_are_complete(dispatcher, keys, caps, k, j);
    lemma_distinct_keeps_items(dispatcher.candidates(keys, caps));
}

/// Where the trigger may react to none of the capabilities, the send-keys add nothing.
pub proof fn law_no_match_no_additional_caps(
    dispatcher: DispatcherView,
    keys: Seq<Key>,
    caps: Seq<Capability>,
)
    requires
        forall|j: int| 0 <= j < caps.len() ==> !DispatcherView::reacts_to(keys, #[trigger] caps[j]),
    ensures
        dispatcher.additional_caps(keys, caps) == Seq::<Capability>::empty(),
{
    let added = dispatcher.additional_caps(keys, caps);
    if added.len() > 0 {
        let origin = law_additional_caps_have_origin(dispatcher, keys, caps, 0);
        lemma_reacts_through_a_key(keys, caps[origin.1]);
    }
}

/// Whether `cap` occurs in `caps`.
fn holds(caps: &Vec<Capability>, cap: &Capability) -> (found: bool)
    ensures
        found == caps@.contains(*cap),
{
    let mut i: usize = 0;
    while i < caps.len()
        invariant
            i <= caps.len(),
            forall|j: int| 0 <= j < i ==> caps@[j] != *cap,
        decreases caps.len() - i,
    {
        if caps[i].same_as(cap) {
            return true;
        }
        i += 1;
    }
    false
}

impl EventDispatcher {
    /// A dispatcher for `send_keys` with no activation on record.
    pub fn from_send_keys(send_keys: Vec<Key>) -> (dispatcher: EventDispatcher)
        ensures
            dispatcher@ == (DispatcherView { send_keys: send_keys@, activating_event: None }),
    {
        EventDispatcher { send_keys, activating_event: None }
    }

    /// Passes `event` on to `events_out`, together with the presses or releases of the
    /// send-keys that `trigger_response` calls for.
    ///
    /// On activation the event comes first and the presses follow in the order of the
    /// send-keys. On release the releases come first, last key first, and the event follows.
    pub fn map_event(
        &mut self,
        event: Event,
        trigger_response: TriggerResponse,
        events_out: &mut Vec<Event>,
    )
        ensures
            final(self)@ == old(self)@.map_event(event, trigger_response),
            final(events_out)@ == old(events_out)@ + old(self)@.emitted(event, trigger_response),
    {
        let ghost before = self@;
        let ghost out = events_out@;
        let count = self.send_keys.len();
        match trigger_response {
            TriggerResponse::Activates => {
                events_out.push(event);
                self.activating_event = Some(event);
                let mut i: usize = 0;
                while i < count
                    invariant
                        i <= count,
                        count == before.send_keys.len(),
                        self.send_keys@ == before.send_keys,
                        self.activating_event == Some(event),
                        events_out@ == out.push(event) + before.presses(event).take(i as int),
                    decreases count - i,
                {
                    let mut additional_event = self.send_keys[i].merge(event);
                    additional_event.value = 1;
                    additional_event.flags.unset(EventFlag::Withholdable);
                    events_out.push(additional_event);
                    i += 1;
                }
            },
            TriggerResponse::Releases => {
                let activating_event = match self.activating_event {
                    Some(activating_event) => activating_event,
                    None => event,
                };
                let mut i: usize = 0;
                while i < count
                    invariant
                        i <= count,
                        count == before.send_keys.len(),
                        self@ == before,
                        activating_event == before.origin(event),
                        events_out@ == out + before.releases(activating_event).take(i as int),
                    decreases count - i,
                {
                    let mut additional_event = self.send_keys[count - 1 - i].merge(
                        activating_event,
                    );
                    additional_event.value = 0;
                    additional_event.flags.unset(EventFlag::Withholdable);
                    events_out.push(additional_event);
                    i += 1;
                }
                events_out.push(event);
            },
            TriggerResponse::Matches | TriggerResponse::Unrelated => {
                events_out.push(event);
            },
        }
    }

    /// Appends to `caps_out` what the send-keys add to a device that has `caps`: for each
    /// capability that `trigger` may react to, each send-key as a key that is released or
    /// pressed. Nothing is added twice, and `caps` itself is not passed on.
    pub fn generate_additional_caps(
        &self,
        trigger: &Trigger,
        caps: &[Capability],
        caps_out: &mut Vec<Capability>,
    )
        ensures
            final(caps_out)@ == old(caps_out)@ + self@.additional_caps(trigger@.keys(), caps@),
            forall|n: int|
                old(caps_out)@.len() <= n < final(caps_out)@.len() ==> {
                    &&& (#[trigger] final(caps_out)@[n]).value_range == binary_range()
                    &&& self@.is_made_for_match(trigger@.keys(), caps@, final(caps_out)@[n])
                },
    {
        let ghost keys = trigger@.keys();
        let ghost out = caps_out@;
        let mut additional_caps: Vec<Capability> = Vec::new();

        let mut i: usize = 0;
        while i < caps.len()
            invariant
                i <= caps.len(),
                keys == trigger@.keys(),
                additional_caps@ == self@.additional_caps(keys, caps@.take(i as int)),
            decreases caps.len() - i,
        {
            let cap_in = caps[i];
            let ghost seen = self@.candidates(keys, caps@.take(i as int));
            assert(caps@.take(i + 1).drop_last() =~= caps@.take(i as int));
            let reacts = match trigger.matches_cap(&cap_in) {
                Some(answer) => answer.is_possible(),
                None => false,
            };
            if reacts {
                let mut k: usize = 0;
                while k < self.send_keys.len()
                    invariant
                        k <= self.send_keys.len(),
                        additional_caps@ == distinct(seen + self@.synthesized(cap_in).take(k as int)),
                    decreases self.send_keys.len() - k,
                {
                    let mut new_cap = self.send_keys[k].merge_cap(cap_in);
                    new_cap.value_range = Range::new(Some(0), Some(1));
                    proof {
                        lemma_distinct_push(seen + self@.synthesized(cap_in).take(k as int), new_cap);
                        assert((seen + self@.synthesized(cap_in).take(k as int)).push(new_cap) =~= seen
                            + self@.synthesized(cap_in).take(k + 1));
                    }
                    if !holds(&additional_caps, &new_cap) {
                        additional_caps.push(new_cap);
                    }
                    k += 1;
                }
                assert(self@.synthesized(cap_in).take(k as int) =~= self@.synthesized(cap_in));
            } else {
                assert(seen + Seq::<Capability>::empty() =~= seen);
            }
            i += 1;
        }
        assert(caps@.take(i as int) =~= caps@);

        let mut n: usize = 0;
        while n < additional_caps.len()
            invariant
                n <= additional_caps.len(),
                caps_out@ == out + additional_caps@.take(n as int),
            decreases additional_caps.len() - n,
        {
            caps_out.push(additional_caps[n]);
            n += 1;
        }
        assert forall|n: int| out.len() <= n < caps_out@.len() implies {
            &&& (#[trigger] caps_out@[n]).value_range == binary_range()
            &&& self@.is_made_for_match(keys, caps@, caps_out@[n])
        } by {
            let origin = law_additional_caps_have_origin(self@, keys, caps@, n - out.len());
        }
    }

    /// The event of the last activation, if there was one.
    pub fn activating_event(&self) -> (event: Option<Event>)
        ensures
            event == self@.activating_event,
    {
        self.activating_event
    }

    /// A dispatcher with the same send-keys and no activation on record.
    pub fn clone_empty(&self) -> (fresh: EventDispatcher)
        ensures
            fresh@ == self@.clone_empty(),
            fresh@.send_keys == self@.send_keys,
            fresh@.activating_event is None,
    {
        let mut send_keys: Vec<Key> = Vec::new();
        let mut i: usize = 0;
        while i < self.send_keys.len()
            invariant
                i <= self.send_keys.len(),
                send_keys@ == self.send_keys@.take(i as int),
            decreases self.send_keys.len() - i,
        {
            send_keys.push(self.send_keys[i]);
            i += 1;
        }
        EventDispatcher { send_keys, activating_event: None }
    }
}

} // verus!
