use vstd::prelude::*;
use vstd::std_specs::convert::FromSpec;
use crate::capability::Capability;
use crate::dispatcher::{DispatcherView, EventDispatcher};
use crate::effect::{run_all, Command, Effect};
use crate::event::{Event, EventFlag};
use crate::loopback::{LoopbackHandle, LoopbackView, Token};
use crate::trigger::{Trigger, TriggerResponse, TriggerView};

verus! {

/// What a `Hook` stands for.
#[verifier::ext_equal]
pub struct HookView<E> {
    /// What to do when the hook activates, in order.
    pub effects: Seq<E>,
    /// What to do when the hook releases, in order.
    pub release_effects: Seq<E>,
    /// Whether the events that concern the hook are marked as withholdable.
    pub mark_withholdable: bool,
    pub trigger: TriggerView,
    pub event_dispatcher: DispatcherView,
}

/// Where one event, or a batch of events, leaves a hook and what surrounds it.
#[verifier::ext_equal]
pub struct Outcome<E, S> {
    pub hook: HookView<E>,
    /// The events that left the hook, in order.
    pub emitted: Seq<Event>,
    pub timer: LoopbackView,
    pub state: S,
}

impl<E> HookView<E> {
    /// `event` as it is passed on: marked, where the hook marks and the event concerns it.
    pub open spec fn marked(self, event: Event, response: TriggerResponse) -> Event {
        if self.mark_withholdable && response != TriggerResponse::Unrelated {
            event.flagged(EventFlag::Withholdable)
        } else {
            event
        }
    }

    /// The effects that are due after the trigger has answered `response`.
    pub open spec fn due(self, response: TriggerResponse) -> Seq<E> {
        match response {
            TriggerResponse::Activates => self.effects,
            TriggerResponse::Releases => self.release_effects,
            TriggerResponse::Matches | TriggerResponse::Unrelated => Seq::empty(),
        }
    }

    /// What the trigger answers to `event`.
    pub open spec fn response(self, event: Event, timer: LoopbackView) -> TriggerResponse {
        self.trigger.apply(event, timer.next_token).1
    }

    /// Where `event` leaves the hook, the timer and the state.
    pub open spec fn apply<S>(self, event: Event, timer: LoopbackView, state: S) -> Outcome<
        E,
        S,
    > where E: Effect<S> {
        let response = self.response(event, timer);
        let passed_on = self.marked(event, response);
        Outcome {
            hook: HookView {
                trigger: self.trigger.apply(event, timer.next_token).0,
                event_dispatcher: self.event_dispatcher.map_event(passed_on, response),
                ..self
            },
            emitted: self.event_dispatcher.emitted(passed_on, response),
            timer: timer.schedule_all(self.trigger.requested(event)),
            state: run_all(self.due(response), state),
        }
    }

    /// Where `events`, taken one after another, leave the hook, the timer and the state.
    pub open spec fn apply_to_all<S>(
        self,
        events: Seq<Event>,
        timer: LoopbackView,
        state: S,
    ) -> Outcome<E, S> where E: Effect<S>
        decreases events.len(),
    {
        if events.len() == 0 {
            Outcome { hook: self, emitted: Seq::empty(), timer, state }
        } else {
            let sofar = self.apply_to_all(events.drop_last(), timer, state);
            let last = sofar.hook.apply(events.last(), sofar.timer, sofar.state);
            Outcome { emitted: sofar.emitted + last.emitted, ..last }
        }
    }
}

/// Taking a batch through a hook is the same as taking its front part through and then the
/// rest: what leaves the hook is what the parts give, one after the other.
pub proof fn law_batches_compose<E, S>(
    hook: HookView<E>,
    front: Seq<Event>,
    rest: Seq<Event>,
    timer: LoopbackView,
    state: S,
) where E: Effect<S>
    ensures
        ({
            let whole = hook.apply_to_all(front + rest, timer, state);
            let head = hook.apply_to_all(front, timer, state);
            let tail = head.hook.apply_to_all(rest, head.timer, head.state);
            &&& whole.hook == tail.hook
            &&& whole.timer == tail.timer
            &&& whole.state == tail.state
            &&& whole.emitted == head.emitted + tail.emitted
        }),
    decreases rest.len(),
{
    if rest.len() == 0 {
        assert(front + rest =~= front);
    } else {
        law_batches_compose(hook, front, rest.drop_last(), timer, state);
        assert((front + rest).drop_last() =~= front + rest.drop_last());
    }
}

/// Binds a trigger to effects, to the keys sent in its place and to withholding.
pub struct Hook<E> {
    effects: Vec<E>,
    release_effects: Vec<E>,
    mark_withholdable: bool,
    trigger: Trigger,
    event_dispatcher: EventDispatcher,
}

impl<E> View for Hook<E> {
    type V = HookView<E>;

    closed spec fn view(&self) -> HookView<E> {
        HookView {
            effects: self.effects@,
            release_effects: self.release_effects@,
            mark_withholdable: self.mark_withholdable,
            trigger: self.trigger@,
            event_dispatcher: self.event_dispatcher@,
        }
    }
}

/// Runs `effects` on `state`, first to last.
fn run_effects<S, E: Effect<S>>(effects: &Vec<E>, state: &mut S)
    ensures
        *final(state) == run_all(effects@, *old(state)),
{
    let mut i: usize = 0;
    while i < effects.len()
        invariant
            i <= effects.len(),
            *state == run_all(effects@.take(i as int), *old(state)),
        decreases effects.len() - i,
    {
        assert(effects@.take(i + 1).drop_last() =~= effects@.take(i as int));
        effects[i].apply(state);
        i += 1;
    }
    assert(effects@.take(i as int) =~= effects@);
}

impl<E> Hook<E> {
    /// A hook without effects.
    pub fn new(trigger: Trigger, event_dispatcher: EventDispatcher, mark_withholdable: bool) -> (hook:
        Hook<E>)
        ensures
            hook@ == (HookView {
                effects: Seq::<E>::empty(),
                release_effects: Seq::<E>::empty(),
                mark_withholdable,
                trigger: trigger@,
                event_dispatcher: event_dispatcher@,
            }),
    {
        Hook {
            trigger,
            mark_withholdable,
            effects: Vec::new(),
            release_effects: Vec::new(),
            event_dispatcher,
        }
    }

    pub fn trigger(&self) -> (trigger: &Trigger)
        ensures
            trigger@ == self@.trigger,
    {
        &self.trigger
    }

    pub fn event_dispatcher(&self) -> (event_dispatcher: &EventDispatcher)
        ensures
            event_dispatcher@ == self@.event_dispatcher,
    {
        &self.event_dispatcher
    }

    /// The effects that run when the hook activates, in order.
    pub fn effects(&self) -> (effects: &Vec<E>)
        ensures
            effects@ == self@.effects,
    {
        &self.effects
    }

    /// The effects that run when the hook releases, in order.
    pub fn release_effects(&self) -> (effects: &Vec<E>)
        ensures
            effects@ == self@.release_effects,
    {
        &self.release_effects
    }

    /// A hook with the same trigger, send-keys, effects and marking that has seen no event.
    pub fn clone_empty(&self) -> (fresh: Hook<E>) where E: Clone
        ensures
            fresh@.trigger == self@.trigger.clone_empty(),
            fresh@.event_dispatcher == self@.event_dispatcher.clone_empty(),
            fresh@.mark_withholdable == self@.mark_withholdable,
            fresh@.effects.len() == self@.effects.len(),
            forall|i: int|
                0 <= i < self@.effects.len() ==> cloned(self@.effects[i], #[trigger] fresh@.effects[i]),
            fresh@.release_effects.len() == self@.release_effects.len(),
            forall|i: int|
                0 <= i < self@.release_effects.len() ==> cloned(
                    self@.release_effects[i],
                    #[trigger] fresh@.release_effects[i],
                ),
    {
        Hook {
            effects: self.effects.clone(),
            release_effects: self.release_effects.clone(),
            mark_withholdable: self.mark_withholdable,
            trigger: self.trigger.clone_empty(),
            event_dispatcher: self.event_dispatcher.clone_empty(),
        }
    }

    /// Takes one event through the trigger, passes it on with the keys sent in its place, and
    /// runs the effects that are due.
    ///
    /// Where the trigger has a period, `loopback` has to have a token left for each tracker.
    pub fn apply<S>(
        &mut self,
        event: Event,
        events_out: &mut Vec<Event>,
        state: &mut S,
        loopback: &mut LoopbackHandle,
    ) where E: Effect<S>
        requires
            old(self)@.trigger.period is Some ==> old(self)@.trigger.trackers.len() <= old(
                loopback,
            )@.remaining(),
        ensures
            final(self)@ == old(self)@.apply(event, old(loopback)@, *old(state)).hook,
            final(events_out)@ == old(events_out)@ + old(self)@.apply(
                event,
                old(loopback)@,
                *old(state),
            ).emitted,
            final(loopback)@ == old(self)@.apply(event, old(loopback)@, *old(state)).timer,
            *final(state) == old(self)@.apply(event, old(loopback)@, *old(state)).state,
    {
        let mut event = event;
        let response = self.trigger.apply(event, loopback);

        if self.mark_withholdable {
            match response {
                TriggerResponse::Matches | TriggerResponse::Activates | TriggerResponse::Releases => {
                    event.flags.set(EventFlag::Withholdable);
                },
                TriggerResponse::Unrelated => (),
            }
        }
        self.event_dispatcher.map_event(event, response, events_out);

        match response {
            TriggerResponse::Activates => {
                self.apply_effects(state);
            },
            TriggerResponse::Releases => {
                self.apply_release_effects(state);
            },
            TriggerResponse::Matches | TriggerResponse::Unrelated => (),
        }
    }

    /// Takes `events` through the hook one after another. What leaves the hook is appended to
    /// `events_out`: for each event what it alone gives, in the order of the events.
    ///
    /// Where the trigger has a period, `loopback` has to have a token left for each tracker
    /// and event.
    pub fn apply_to_all<S>(
        &mut self,
        events: &[Event],
        events_out: &mut Vec<Event>,
        state: &mut S,
        loopback: &mut LoopbackHandle,
    ) where E: Effect<S>
        requires
            old(self)@.trigger.period is Some ==> events@.len() * old(self)@.trigger.trackers.len()
                <= old(loopback)@.remaining(),
        ensures
            final(self)@ == old(self)@.apply_to_all(events@, old(loopback)@, *old(state)).hook,
            final(events_out)@ == old(events_out)@ + old(self)@.apply_to_all(
                events@,
                old(loopback)@,
                *old(state),
            ).emitted,
            final(loopback)@ == old(self)@.apply_to_all(events@, old(loopback)@, *old(state)).timer,
            *final(state) == old(self)@.apply_to_all(events@, old(loopback)@, *old(state)).state,
    {
        let ghost before = self@;
        let ghost timer = loopback@;
        let ghost out = events_out@;
        let ghost count = before.trigger.trackers.len() as int;
        let mut i: usize = 0;
        while i < events.len()
            invariant
                i <= events.len(),
                self@ == before.apply_to_all(events@.take(i as int), timer, *old(state)).hook,
                events_out@ == out + before.apply_to_all(
                    events@.take(i as int),
                    timer,
                    *old(state),
                ).emitted,
                loopback@ == before.apply_to_all(events@.take(i as int), timer, *old(state)).timer,
                *state == before.apply_to_all(events@.take(i as int), timer, *old(state)).state,
                self@.trigger.period == before.trigger.period,
                self@.trigger.trackers.len() == count,
                before.trigger.period is Some ==> (events@.len() - i) * count
                    <= loopback@.remaining(),
            decreases events.len() - i,
        {
            let ghost sofar = before.apply_to_all(events@.take(i as int), timer, *old(state));
            assert(events@.take(i + 1).drop_last() =~= events@.take(i as int));
            assert((events@.len() - i) * count == (events@.len() - (i + 1)) * count + count)
                by (nonlinear_arith);
            assert((events@.len() - (i + 1)) * count >= 0) by (nonlinear_arith)
                requires
                    events@.len() - (i + 1) >= 0,
                    count >= 0,
            ;
            proof {
                crate::trigger::lemma_apply_keeps_shape(
                    self@.trigger,
                    events@[i as int],
                    loopback@.next_token,
                );
                crate::trigger::lemma_tokens_before_bounded(self@.trigger, events@[i as int], count);
            }
            self.apply(events[i], events_out, state, loopback);
            i += 1;
        }
        assert(events@.take(i as int) =~= events@);
    }

    /// Appends to `caps_out` what a device that has `caps` can produce behind this hook:
    /// `caps` as they are, then what the send-keys add.
    pub fn apply_to_all_caps(&self, caps: &[Capability], caps_out: &mut Vec<Capability>)
        ensures
            final(caps_out)@ == old(caps_out)@ + caps@ + self@.event_dispatcher.additional_caps(
                self@.trigger.keys(),
                caps@,
            ),
    {
        let ghost out = caps_out@;
        let mut i: usize = 0;
        while i < caps.len()
            invariant
                i <= caps.len(),
                caps_out@ == out + caps@.take(i as int),
            decreases caps.len() - i,
        {
            caps_out.push(caps[i]);
            i += 1;
        }
        self.event_dispatcher.generate_additional_caps(&self.trigger, caps, caps_out);
    }

    /// Passes the wakeup for `token` on to the trigger. No effect runs: effects run with the
    /// event that changes what the trigger answers.
    pub fn wakeup(&mut self, token: &Token)
        ensures
            final(self)@ == (HookView { trigger: old(self)@.trigger.wakeup(*token), ..old(self)@ }),
    {
        self.trigger.wakeup(token);
    }

    /// Runs the on-activate effects, in the order in which they were added.
    fn apply_effects<S>(&self, state: &mut S) where E: Effect<S>
        ensures
            *final(state) == run_all(self@.effects, *old(state)),
    {
        run_effects(&self.effects, state);
    }

    /// Runs the on-release effects, in the order in which they were added.
    fn apply_release_effects<S>(&self, state: &mut S) where E: Effect<S>
        ensures
            *final(state) == run_all(self@.release_effects, *old(state)),
    {
        run_effects(&self.release_effects, state);
    }

    /// Adds an effect to run when the hook activates, after those added before.
    pub fn add_effect(&mut self, effect: E)
        ensures
            final(self)@ == (HookView { effects: old(self)@.effects.push(effect), ..old(self)@ }),
    {
        self.effects.push(effect);
    }

    /// Adds an effect to run when the hook releases, after those added before.
    pub fn add_release_effect(&mut self, effect: E)
        ensures
            final(self)@ == (HookView {
                release_effects: old(self)@.release_effects.push(effect),
                ..old(self)@
            }),
    {
        self.release_effects.push(effect);
    }

    /// Adds the launch of `program` with `args` to the effects that run when the hook
    /// activates. How a command is launched is up to the effect type, which is made
    /// from the command.
    pub fn add_command(&mut self, program: String, args: Vec<String>) where E: From<Command>
        ensures
            final(self)@.effects.len() == old(self)@.effects.len() + 1,
            final(self)@ == (HookView {
                effects: old(self)@.effects.push(final(self)@.effects.last()),
                ..old(self)@
            }),
            call_ensures(E::from, (Command { program, args },), final(self)@.effects.last()),
            E::obeys_from_spec() ==> final(self)@.effects.last() == E::from_spec(
                Command { program, args },
            ),
    {
        let effect = E::from(Command { program, args });
        self.add_effect(effect);
    }
}

} // verus!
