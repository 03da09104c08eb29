//! The event queue and the record of what triage did with it.
pub mod effect_laws;
pub mod intake_laws;
pub mod laws;
pub mod operations;
pub mod order;
pub mod queue;
pub mod queue_laws;
pub mod reader_laws;
pub mod readers;
pub mod records;
pub mod rules;
pub mod run_laws;
pub mod runs;
pub mod schema;
pub mod sources;
pub mod tables;
