//! A weekly notification service's core: the registry of subscribed channels
//! as it is laid out in a key/value store, the clock that finds the next
//! weekly firing, and the fan-out of one firing over the subscribers.
//!
//! Everything here works on plain values. Opening the store, sleeping and
//! talking to the messaging service are left to the program around it.

pub mod commands;
pub mod dispatch;
pub mod encoding;
pub mod schedule;
pub mod store;
pub mod subscriptions;
pub mod text;
