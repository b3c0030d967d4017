//! Cron schedule parsing, next-activation computation, and the decisions of
//! a cron scheduler.
pub mod chain;
pub mod civil;
pub mod constant_delay;
pub mod cron;
pub mod duration;
pub mod fixed_zone;
pub mod parser;
pub mod schedule;
pub mod spec;
pub mod text;
pub mod time;
