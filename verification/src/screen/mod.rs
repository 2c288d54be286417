//! The dashboard: its panes, and what keeps their data whole.

pub mod backfill;
pub mod backfill_laws;
pub mod content;
pub mod dashboard;
pub mod dashboard_laws;
pub mod links;
pub mod pane_action;
