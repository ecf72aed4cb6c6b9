//! Core of a group-chat player-queue coordinator: a pure state store over
//! chats and their queues, a minute-granularity timeout scanner, a command
//! dispatcher, and a binary codec for durable snapshots.

pub mod assoc;
pub mod clock;
pub mod codec;
pub mod handler;
pub mod laws;
pub mod scheduler;
pub mod store;
pub mod types;

use vstd::prelude::*;

verus! {

/// Minutes in a day; every time-of-day value in the library is a
/// minute-of-day strictly below this bound.
pub const MINUTES_PER_DAY: u16 = 1440;

} // verus!
