//! Coordination of historical and live market data.

pub mod bridge;
pub mod cache;
pub mod chart_need;
pub mod consumer;
pub mod coordinator;
pub mod coordinator_laws;
pub mod coverage;
pub mod coverage_laws;
pub mod derived;
pub mod effect;
pub mod execution_laws;
pub mod job;
pub mod key;
pub mod live;
pub mod plan_laws;
pub mod planner;
pub mod progress;
pub mod range;
pub mod range_laws;
pub mod requirement;
pub mod runtime;
pub mod series;
pub mod session;
pub mod store;
pub mod store_laws;
pub mod ui;
