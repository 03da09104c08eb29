pub mod agent;
pub mod application_log;
pub mod cli;
pub mod config;
pub mod dashboard;
pub mod database;
pub mod errors;
pub mod json;
pub mod logging;
pub mod monitor;
pub mod paths;
pub mod presentation;
pub mod project_registry;
pub mod protocol;
pub mod run_detail;
pub mod run_durations;
pub mod session;
pub mod source_runner;
pub mod text;
pub mod urls;
