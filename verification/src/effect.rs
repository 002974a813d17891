use vstd::prelude::*;

verus! {

/// Something a hook does to the shared engine state `S` when it fires.
///
/// An implementation states in `outcome` what `apply` does to the state; what `apply` does
/// beyond the state is its own business.
pub trait Effect<S> {
    /// The state that `apply` leaves behind when it starts from `before`.
    spec fn outcome(&self, before: S) -> S;

    fn apply(&self, state: &mut S)
        ensures
            *final(state) == self.outcome(*old(state)),
    ;
}

/// A program to launch, with its arguments.
#[derive(Debug, PartialEq, Eq)]
pub struct Command {
    pub program: String,
    pub args: Vec<String>,
}

/// The state after `effects` have run one after another, first to last, starting from `before`.
pub open spec fn run_all<S, E: Effect<S>>(effects: Seq<E>, before: S) -> S
    decreases effects.len(),
{
    if effects.len() == 0 {
        before
    } else {
        effects.last().outcome(run_all(effects.drop_last(), before))
    }
}

} // verus!
