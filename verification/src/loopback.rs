use vstd::prelude::*;

verus! {

/// A span of time, in microseconds.
#[derive(Clone, Copy, Debug, PartialEq, Eq, Structural)]
pub struct Duration {
    pub micros: u64,
}

impl Duration {
    pub fn from_micros(micros: u64) -> (duration: Duration)
        ensures
            duration.micros == micros,
    {
        Duration { micros }
    }

    pub fn from_millis(millis: u32) -> (duration: Duration)
        ensures
            duration.micros == millis * 1000,
    {
        Duration { micros: (millis as u64) * 1000 }
    }
}

/// Names one scheduled wakeup.
#[derive(Clone, Copy, Debug, PartialEq, Eq, Structural)]
pub struct Token {
    pub id: u64,
}

/// A request to be woken up with `token` once `delay` has passed.
#[derive(Clone, Copy, Debug, PartialEq, Eq, Structural)]
pub struct Wakeup {
    pub token: Token,
    pub delay: Duration,
}

/// What a `LoopbackHandle` stands for: the next free token and the requests not yet collected.
#[verifier::ext_equal]
pub struct LoopbackView {
    pub next_token: nat,
    pub scheduled: Seq<Wakeup>,
}

impl LoopbackView {
    /// How many more tokens can be issued.
    pub open spec fn remaining(self) -> int {
        u64::MAX - self.next_token
    }

    /// The token that the `k`-th request from now receives.
    pub open spec fn token_at(self, k: int) -> Token {
        Token { id: (self.next_token + k) as u64 }
    }

    /// The handle after one wakeup was requested for each of `delays`, in order.
    pub open spec fn schedule_all(self, delays: Seq<Duration>) -> LoopbackView {
        LoopbackView {
            next_token: self.next_token + delays.len(),
            scheduled: self.scheduled + Seq::new(
                delays.len(),
                |k: int| Wakeup { token: self.token_at(k), delay: delays[k] },
            ),
        }
    }

    /// The handle after one wakeup was requested.
    pub open spec fn schedule(self, delay: Duration) -> LoopbackView {
        LoopbackView {
            next_token: self.next_token + 1,
            scheduled: self.scheduled.push(Wakeup { token: self.token_at(0), delay }),
        }
    }
}

/// Hands out wakeup tokens and keeps the requests until the driver collects them.
///
/// The driver calls back with a request's token once its delay has passed.
pub struct LoopbackHandle {
    next_token: u64,
    scheduled: Vec<Wakeup>,
}

impl View for LoopbackHandle {
    type V = LoopbackView;

    closed spec fn view(&self) -> LoopbackView {
        LoopbackView { next_token: self.next_token as nat, scheduled: self.scheduled@ }
    }
}

impl LoopbackHandle {
    pub fn new() -> (handle: LoopbackHandle)
        ensures
            handle@ == (LoopbackView { next_token: 0, scheduled: Seq::empty() }),
    {
        LoopbackHandle { next_token: 0, scheduled: Vec::new() }
    }

    /// How many more tokens this handle can issue.
    pub fn remaining(&self) -> (left: u64)
        ensures
            left == self@.remaining(),
            self@.next_token <= u64::MAX,
    {
        u64::MAX - self.next_token
    }

    /// Requests a wakeup after `delay` and returns the token that will come back with it.
    pub fn schedule_wakeup_in(&mut self, delay: Duration) -> (token: Token)
        requires
            old(self)@.remaining() >= 1,
        ensures
            token == old(self)@.token_at(0),
            token.id == old(self)@.next_token,
            final(self)@ == old(self)@.schedule(delay),
    {
        let token = Token { id: self.next_token };
        self.next_token = self.next_token + 1;
        self.scheduled.push(Wakeup { token, delay });
        token
    }

    /// Hands the pending requests to the driver, oldest first, and forgets them.
    pub fn take_scheduled(&mut self) -> (requests: Vec<Wakeup>)
        ensures
            requests@ == old(self)@.scheduled,
            final(self)@ == (LoopbackView { scheduled: Seq::empty(), ..old(self)@ }),
    {
        let mut requests: Vec<Wakeup> = Vec::new();
        std::mem::swap(&mut requests, &mut self.scheduled);
        requests
    }
}

/// The tokens of one handle never repeat: a later request gets a different token.
pub proof fn law_tokens_are_fresh(handle: LoopbackView, earlier: int, later: int)
    requires
        0 <= earlier < later,
        handle.next_token + later <= u64::MAX,
    ensures
        handle.token_at(earlier) != handle.token_at(later),
{
}

} // verus!
