//! Logo learning, location and detection.
//!
//! The pipeline is three stages, each with its own module:
//!
//! 1. [`locate`] finds *where* the logo is, from the fact that a logo is an
//!    edge that never moves.
//! 2. [`scan`] learns *what* it is, by regressing observed pixels against the
//!    background implied by frames whose logo surroundings are flat.
//! 3. [`detect`] scores every frame against it, and [`track`] turns those
//!    scores into the presence intervals commercial detection consumes.

pub mod abl;
pub mod detect;
pub mod learned;
pub mod locate;
pub mod model;
pub mod preview;
pub mod recognised;
pub mod region;
pub mod scan;
pub mod shown;
pub mod single;
pub mod track;
pub mod where_it_sits;
