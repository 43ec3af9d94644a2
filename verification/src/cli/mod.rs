//! The command line: what it asks the engine for, and what it prints.

pub mod epgstation;
pub mod habits;
pub mod print;
pub mod request;
