//! Deciding which parts of a recording are commercials.
//!
//! # Why an optimisation rather than rules
//!
//! A recording is a sequence of segments, each either programme or
//! commercial, split at candidate boundaries. Every candidate segmentation has
//! a score, built from the evidence:
//!
//! - the logo should be present through programme and absent through
//!   commercials;
//! - Japanese commercial blocks are laid out on a **15-second grid**, so a
//!   block of 30, 60 or 90 seconds is far more plausible than one of 47;
//! - a boundary where a scene change, a silence and a logo transition all
//!   coincide is worth much more than a lone scene change;
//! - programmes are long, commercial blocks are not, and neither alternates
//!   every few seconds.
//!
//! The best-scoring segmentation is then found exactly, by dynamic
//! programming, in time quadratic in the number of candidate boundaries. Every
//! rule above is one term with one weight, and changing a weight changes only
//! that term.
//!
//! # Refusing to guess
//!
//! The segmenter also reports how much it trusts its own answer, and the
//! default policy on a low score is to **keep the whole recording** and write
//! chapters instead of cutting. A recording that keeps its commercials is a
//! minor annoyance; one whose programme was cut away is gone.
//!
//! # Units
//!
//! Moments and durations are microseconds; weights, confidences and the
//! confidence threshold are millionths. A score is a product of the two, so
//! every score is a whole number and no sum of them is ever rounded.

pub mod anchors;
pub mod boundary;
pub mod laws;
pub mod plan;
pub mod score;
pub mod solve;
pub mod verdict;
pub mod weighing;
