//! The job server.
//!
//! It runs on the recording box, where there is no desktop, so the queue is
//! the product: it accepts jobs from `EPGStation` and from the web UI, runs
//! them a few at a time, and reports what it is doing to anyone watching.

pub mod api;
pub mod conduct;
pub mod config;
pub mod db;
pub mod disk;
pub mod schedule;
pub mod sources;
pub mod worker;
