//! Building blocks of a chat bot that runs for months: background tasks, cron jobs, a database
//! that keeps one file per key, and an event bus.
//!
//! Everything in this crate is ordinary synchronous code. Where the work it directs has to wait
//! for something (a clock, a channel, a file, a callback), the crate holds the decisions: what to
//! do next, given what happened. The program around it does the waiting.

pub mod control_flow;
pub mod cron;
pub mod file_key;
pub mod manager;
pub mod multifile_db;
pub mod outside;
pub mod pubsub;
pub mod task;
