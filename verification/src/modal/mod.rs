//! What dialogs show, and what they change.

pub mod indicators;
