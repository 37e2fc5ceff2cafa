//! Observation layer for an external workshop-download utility.
//!
//! The library builds the subprocess invocation (login, one download
//! directive per requested item, quit) and turns the utility's free-form
//! log lines into a typed stream of lifecycle events: a download starting,
//! a download finishing with its destination path and byte count, and the
//! raw line itself.

#![verifier::loop_isolation(false)]

pub mod command;
pub mod digits;
pub mod events;
pub mod laws;
pub mod text;

pub use command::{Invocation, Steam, SteamBuilder, SteamBuilderError};
pub use events::{Event, GameId, Item, ItemId, OutputLine};
