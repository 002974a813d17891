//! Activation engine for input-event hooks: trackers, triggers, the
//! send-key dispatcher and the hook that ties them to effects.

pub mod capability;
pub mod dispatcher;
pub mod effect;
pub mod event;
pub mod hook;
pub mod key;
pub mod laws;
pub mod loopback;
pub mod range;
pub mod tracker;
pub mod trigger;
