//! Market-data layer of a trading chart application.
//!
//! The crate holds the decisions of the application as verified functions: which
//! time ranges are missing, which fetch jobs run, which chart receives what.

pub mod clock;
pub mod connector;
pub mod id_table;
pub mod ids;
pub mod keyed;
pub mod market;
pub mod market_data;
pub mod market_service;
pub mod modal;
pub mod power_guard;
pub mod render_scheduler;
pub mod screen;
pub mod seqs;
pub mod sorting;
pub mod text;
pub mod time;
pub mod widget;
pub mod windowing;
