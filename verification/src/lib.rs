//! A staged query pipeline: bounded queues between transformation stages,
//! a worker pool for the terminal stage, and per-request response
//! correlation so that every caller receives the result of its own request.

pub mod handle;
pub mod pipeline;
pub mod query_executor;
pub mod query_parser;
pub mod query_planner;
pub mod queue;
pub mod types;
