//! What is asked of the exchanges, and what they answer.

pub mod fetcher;
