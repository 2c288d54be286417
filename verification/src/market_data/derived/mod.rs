//! Data that is computed from raw market data.

pub mod bubble_laws;
pub mod bubbles;
