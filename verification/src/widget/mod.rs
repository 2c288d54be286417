//! What widgets show.

pub mod circle;
pub mod gex;
