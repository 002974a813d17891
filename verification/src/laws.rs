//! What holds of a trigger over any course of events and wakeups.

use vstd::prelude::*;
use crate::event::Event;
use crate::loopback::{Duration, LoopbackView, Token, Wakeup};
use crate::tracker::{ExpirationTime, TrackerState};
use crate::trigger::{gap_before, lemma_apply_keeps_wf, lemma_wakeup_keeps_wf};
use crate::trigger::{TriggerResponse, TriggerView};

verus! {

/// What can reach a trigger.
pub enum Input {
    Event(Event),
    Wakeup(Token),
}

/// A trigger together with the next free token of its timer.
pub struct Run {
    pub trigger: TriggerView,
    pub next_token: nat,
}

/// Where `input` takes a trigger and its timer.
pub open spec fn step(run: Run, input: Input) -> Run {
    match input {
        Input::Event(event) => Run {
            trigger: run.trigger.apply(event, run.next_token).0,
            next_token: run.next_token + run.trigger.requested(event).len(),
        },
        Input::Wakeup(token) => Run { trigger: run.trigger.wakeup(token), ..run },
    }
}

/// What the trigger answers to `input`. A wakeup gets no answer.
pub open spec fn answer(run: Run, input: Input) -> Option<TriggerResponse> {
    match input {
        Input::Event(event) => Some(run.trigger.apply(event, run.next_token).1),
        Input::Wakeup(_) => None,
    }
}

/// Where `inputs`, taken one after another, take a trigger and its timer.
pub open spec fn after(start: Run, inputs: Seq<Input>) -> Run
    decreases inputs.len(),
{
    if inputs.len() == 0 {
        start
    } else {
        step(after(start, inputs.drop_last()), inputs.last())
    }
}

/// No course of events and wakeups takes a trigger out of its resting condition.
pub proof fn law_rest_is_kept(start: Run, inputs: Seq<Input>)
    requires
        start.trigger.wf(),
    ensures
        after(start, inputs).trigger.wf(),
    decreases inputs.len(),
{
    if inputs.len() > 0 {
        law_rest_is_kept(start, inputs.drop_last());
        let before = after(start, inputs.drop_last());
        match inputs.last() {
            Input::Event(event) => {
                lemma_apply_keeps_wf(before.trigger, event, before.next_token);
            },
            Input::Wakeup(token) => {
                lemma_wakeup_keeps_wf(before.trigger, token);
            },
        }
    }
}

/// Over any course of events and wakeups, a trigger answers `Activates` exactly with the
/// inputs at which its trackers come to be all active, and `Releases` exactly with those at
/// which they cease to be; a wakeup does neither. So each stretch during which all trackers
/// are active begins with one `Activates` and ends with one `Releases`, and there are no others.
pub proof fn law_answers_mark_the_edges(start: Run, inputs: Seq<Input>, k: int)
    requires
        start.trigger.wf(),
        0 <= k < inputs.len(),
    ensures
        ({
            let before = after(start, inputs.take(k));
            let next = after(start, inputs.take(k + 1));
            &&& next == step(before, inputs[k])
            &&& (answer(before, inputs[k]) == Some(TriggerResponse::Activates) <==> !before.trigger.held()
                && next.trigger.held())
            &&& (answer(before, inputs[k]) == Some(TriggerResponse::Releases) <==> before.trigger.held()
                && !next.trigger.held())
            &&& (inputs[k] is Wakeup ==> before.trigger.held() == next.trigger.held())
        }),
{
    let before = after(start, inputs.take(k));
    let next = after(start, inputs.take(k + 1));
    assert(inputs.take(k + 1).drop_last() =~= inputs.take(k));
    law_rest_is_kept(start, inputs.take(k));
    law_rest_is_kept(start, inputs.take(k + 1));
}

/// How often the trigger answers `wanted` in the course of `inputs`.
pub open spec fn times_answered(start: Run, inputs: Seq<Input>, wanted: TriggerResponse) -> nat
    decreases inputs.len(),
{
    if inputs.len() == 0 {
        0
    } else {
        times_answered(start, inputs.drop_last(), wanted) + if answer(
            after(start, inputs.drop_last()),
            inputs.last(),
        ) == Some(wanted) {
            1nat
        } else {
            0nat
        }
    }
}

/// `Activates` and `Releases` take turns: over any course of events and wakeups there is
/// one `Releases` for each `Activates`, but for the last `Activates` while the trackers are
/// still all active.
pub proof fn law_activations_and_releases_take_turns(start: Run, inputs: Seq<Input>)
    requires
        start.trigger.wf(),
    ensures
        times_answered(start, inputs, TriggerResponse::Activates) + (if start.trigger.held() {
            1nat
        } else {
            0nat
        }) == times_answered(start, inputs, TriggerResponse::Releases) + (if after(
            start,
            inputs,
        ).trigger.held() {
            1nat
        } else {
            0nat
        }),
    decreases inputs.len(),
{
    if inputs.len() > 0 {
        law_activations_and_releases_take_turns(start, inputs.drop_last());
        law_rest_is_kept(start, inputs.drop_last());
        law_rest_is_kept(start, inputs);
    }
}

/// In a trigger without order, a tracker is active after an event exactly if the event holds
/// its input within the activating range and the tracker was not invalid, or, where the event
/// is about another input, if the tracker was active before.
pub proof fn law_unordered_trackers_follow_their_input(
    trigger: TriggerView,
    event: Event,
    first_token: nat,
    i: int,
)
    requires
        !trigger.sequential,
        0 <= i < trigger.trackers.len(),
    ensures
        trigger.apply(event, first_token).0.trackers[i].spec_is_active() == if trigger.trackers[i].spec_matches(
            event,
        ) {
            trigger.trackers[i].spec_activates_by(event) && !(trigger.trackers[i].state is Invalid)
        } else {
            trigger.trackers[i].spec_is_active()
        },
{
}

/// In a trigger with order, a tracker that an event would activate while some tracker before
/// it is not active becomes invalid instead, and the trigger does not activate.
pub proof fn law_out_of_turn_is_invalid(
    trigger: TriggerView,
    event: Event,
    first_token: nat,
    i: int,
    earlier: int,
)
    requires
        trigger.sequential,
        0 <= earlier < i < trigger.trackers.len(),
        trigger.trackers[i].spec_matches(event),
        trigger.trackers[i].spec_activates_by(event),
        trigger.trackers[i].state is Inactive,
        !trigger.fed(event, first_token)[earlier].spec_is_active(),
    ensures
        trigger.apply(event, first_token).0.trackers[i].state is Invalid,
        trigger.apply(event, first_token).1 != TriggerResponse::Activates,
        !trigger.apply(event, first_token).0.active,
{
}

/// In a trigger with order, a tracker that an event activates while all trackers before it
/// are active becomes active.
pub proof fn law_in_turn_is_active(trigger: TriggerView, event: Event, first_token: nat, i: int)
    requires
        trigger.sequential,
        0 <= i < trigger.trackers.len(),
        trigger.trackers[i].spec_matches(event),
        trigger.trackers[i].spec_activates_by(event),
        trigger.trackers[i].state is Inactive,
        !gap_before(trigger.fed(event, first_token), i),
    ensures
        trigger.apply(event, first_token).0.trackers[i].spec_is_active(),
{
}

/// An invalid tracker stays invalid until an event takes its input out of the activating
/// range, which makes it inactive. No event makes it active at once, so the trigger does not
/// activate while a tracker is invalid.
pub proof fn law_invalid_has_to_be_released(
    trigger: TriggerView,
    event: Event,
    first_token: nat,
    i: int,
)
    requires
        0 <= i < trigger.trackers.len(),
        trigger.trackers[i].state is Invalid,
    ensures
        trigger.apply(event, first_token).0.trackers[i].state == if trigger.trackers[i].spec_matches(
            event,
        ) && !trigger.trackers[i].spec_activates_by(event) {
            TrackerState::Inactive
        } else {
            TrackerState::Invalid
        },
        trigger.apply(event, first_token).1 != TriggerResponse::Activates,
        !trigger.apply(event, first_token).0.held(),
{
    if !trigger.matched(event) {
        assert(!trigger.trackers[i].spec_is_active());
    }
}

/// A wakeup leaves an invalid tracker invalid.
pub proof fn law_wakeup_keeps_invalid(trigger: TriggerView, token: Token, i: int)
    requires
        0 <= i < trigger.trackers.len(),
        trigger.trackers[i].state is Invalid,
    ensures
        trigger.wakeup(token).trackers[i].state is Invalid,
{
}

/// Without a period, no wakeup changes a trigger, whatever its token.
pub proof fn law_no_period_no_expiry(trigger: TriggerView, token: Token)
    requires
        trigger.wf(),
        trigger.period is None,
    ensures
        trigger.wakeup(token) == trigger,
        !trigger.expires_at(token),
{
    assert(trigger.wakeup(token).trackers =~= trigger.trackers);
}

/// Without a period, no wakeup changes a trigger at any point of any course of events and
/// wakeups.
pub proof fn law_no_period_no_expiry_ever(start: Run, inputs: Seq<Input>, token: Token)
    requires
        start.trigger.wf(),
        start.trigger.period is None,
    ensures
        after(start, inputs).trigger.wakeup(token) == after(start, inputs).trigger,
        !after(start, inputs).trigger.expires_at(token),
{
    law_rest_is_kept(start, inputs);
    law_period_is_kept(start, inputs);
    law_no_period_no_expiry(after(start, inputs).trigger, token);
}

/// No course of events and wakeups changes the period, the order or the number of trackers.
pub proof fn law_period_is_kept(start: Run, inputs: Seq<Input>)
    ensures
        after(start, inputs).trigger.period == start.trigger.period,
        after(start, inputs).trigger.sequential == start.trigger.sequential,
        after(start, inputs).trigger.trackers.len() == start.trigger.trackers.len(),
    decreases inputs.len(),
{
    if inputs.len() > 0 {
        law_period_is_kept(start, inputs.drop_last());
    }
}

/// With a period, a tracker that an event turns from inactive to active asks for a wakeup
/// after the period, and waits for the token of that request: unless the order makes it
/// invalid, or the event activates the trigger, which lifts all time limits.
pub proof fn law_activation_asks_for_wakeup(
    trigger: TriggerView,
    event: Event,
    timer: LoopbackView,
    period: Duration,
    i: int,
)
    requires
        trigger.period == Some(period),
        0 <= i < trigger.trackers.len(),
        trigger.wants_token(event, i),
    ensures
        ({
            let nth = trigger.tokens_before(event, i) as int;
            let token = timer.token_at(nth);
            let scheduled = timer.schedule_all(trigger.requested(event)).scheduled;
            let after = trigger.apply(event, timer.next_token);
            &&& nth < trigger.requested(event).len()
            &&& scheduled[timer.scheduled.len() + nth] == Wakeup { token, delay: period }
            &&& after.0.trackers[i].state == if after.1 == TriggerResponse::Activates {
                TrackerState::Active(ExpirationTime::Never)
            } else if trigger.sequential && gap_before(trigger.fed(event, timer.next_token), i) {
                TrackerState::Invalid
            } else {
                TrackerState::Active(ExpirationTime::Until(token))
            }
        }),
{
    lemma_tokens_grow(trigger, event, i + 1, trigger.trackers.len() as int);
}

/// The wakeups asked for before a later tracker include those asked for before an earlier one.
proof fn lemma_tokens_grow(trigger: TriggerView, event: Event, i: int, j: int)
    requires
        0 <= i <= j,
    ensures
        trigger.tokens_before(event, i) <= trigger.tokens_before(event, j),
    decreases j - i,
{
    if i < j {
        lemma_tokens_grow(trigger, event, i, j - 1);
    }
}

/// The wakeup with the token that a tracker waits for makes that tracker invalid, and with it
/// the trackers are not all active.
pub proof fn law_wakeup_invalidates(trigger: TriggerView, token: Token, i: int)
    requires
        0 <= i < trigger.trackers.len(),
        trigger.trackers[i].state == TrackerState::Active(ExpirationTime::Until(token)),
    ensures
        trigger.expires_at(token),
        trigger.wakeup(token).trackers[i].state is Invalid,
        !trigger.wakeup(token).held(),
{
    assert(!trigger.wakeup(token).trackers[i].spec_is_active());
}

/// A wakeup whose token no tracker waits for changes nothing.
pub proof fn law_stale_wakeup_is_ignored(trigger: TriggerView, token: Token)
    requires
        !trigger.expires_at(token),
    ensures
        trigger.wakeup(token) == trigger,
{
    assert(trigger.wakeup(token).trackers =~= trigger.trackers);
}

/// Once a tracker is invalid, no course of events makes the trigger answer `Activates` before
/// an event has taken the tracker's input out of its activating range.
pub proof fn law_invalid_blocks_activation(start: Run, inputs: Seq<Input>, i: int, k: int)
    requires
        0 <= i < start.trigger.trackers.len(),
        start.trigger.trackers[i].state is Invalid,
        0 <= k < inputs.len(),
        forall|n: int|
            0 <= n <= k ==> !((#[trigger] inputs[n]) matches Input::Event(event)
                && start.trigger.trackers[i].spec_matches(event)
                && !start.trigger.trackers[i].spec_activates_by(event)),
    ensures
        after(start, inputs.take(k + 1)).trigger.trackers.len() == start.trigger.trackers.len(),
        after(start, inputs.take(k + 1)).trigger.trackers[i].state is Invalid,
        answer(after(start, inputs.take(k)), inputs[k]) != Some(TriggerResponse::Activates),
        !after(start, inputs.take(k + 1)).trigger.held(),
    decreases k,
{
    let before = after(start, inputs.take(k));
    assert(inputs.take(k + 1).drop_last() =~= inputs.take(k));
    if k > 0 {
        law_invalid_blocks_activation(start, inputs, i, k - 1);
    }
    law_period_is_kept(start, inputs.take(k));
    law_tracker_keeps_key(start, inputs.take(k), i);
    match inputs[k] {
        Input::Event(event) => {
            law_invalid_has_to_be_released(before.trigger, event, before.next_token, i);
        },
        Input::Wakeup(token) => {
            assert(!before.trigger.wakeup(token).trackers[i].spec_is_active());
        },
    }
}

/// No course of events and wakeups changes the key or the activating range of a tracker.
pub proof fn law_tracker_keeps_key(start: Run, inputs: Seq<Input>, i: int)
    requires
        0 <= i < start.trigger.trackers.len(),
    ensures
        after(start, inputs).trigger.trackers.len() == start.trigger.trackers.len(),
        after(start, inputs).trigger.trackers[i].key == start.trigger.trackers[i].key,
        after(start, inputs).trigger.trackers[i].range == start.trigger.trackers[i].range,
    decreases inputs.len(),
{
    if inputs.len() > 0 {
        law_tracker_keeps_key(start, inputs.drop_last(), i);
        law_period_is_kept(start, inputs.drop_last());
    }
}

} // verus!
