//! Core decision logic of a market-alert chat bot.
//!
//! A recurring job fetches a market snapshot, decides which named time
//! intervals are due, evaluates per-chat alert subscriptions ("demands")
//! against a historical snapshot, detects "pump" moves over the whole
//! snapshot, and dispatches notifications with bounded concurrency.
//!
//! This crate holds the policy layer: interval matching, subscription
//! bookkeeping and quota, percent-change evaluation, pump detection and
//! suppression, fan-out accounting, and the scheduler's tick plan. The
//! collaborators that do I/O (chat transport, database, market fetch)
//! live outside and hand plain values in and out.

pub mod command;
pub mod counts;
pub mod decimal;
pub mod demand;
pub mod dispatch;
pub mod evaluate;
pub mod history;
pub mod interval;
pub mod market;
pub mod pump;
pub mod scheduler;
pub mod sqltext;
pub mod store;
pub mod text;
