//! Decision and formatting logic of an ActivityWatch notification service:
//! time-threshold alerts per category, check-in summaries, server-status
//! and new-day notices, all over plain values (instants and durations in
//! whole seconds).

pub mod alert;
pub mod clock;
pub mod service;
pub mod text;
pub mod times;
