//! Automatic commercial detection, cutting and transcoding for Japanese
//! broadcast recordings: the verified core.

pub mod analyze;
pub mod arith;
pub mod cli;
pub mod cmcut;
pub mod engine;
pub mod media;
pub mod order;
pub mod paths;
pub mod seqs;
pub mod server;
pub mod spelling;
pub mod text;
pub mod textmap;
pub mod ts;
