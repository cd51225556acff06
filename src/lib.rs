//! Log observation core: time buckets, match events, context rings,
//! the data store, the notifier and the event waiters.
use vstd::prelude::*;

pub mod time;
pub mod keys;
pub mod counts;
pub mod text;
pub mod event;
pub mod pattern;
pub mod config;
pub mod monitor;
pub mod messages;
pub mod fileset;
pub mod last_seen;
pub mod store;
pub mod notifier;
pub mod setup;

verus! {

} // verus!
