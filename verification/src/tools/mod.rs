//! The tools that agents call: their arguments, their rules and their results.
pub mod async_tool_manager;
pub mod catalog;
pub mod clock;
pub mod common;
pub mod cron;
pub mod delegate;
pub mod edit;
pub mod exec;
pub mod file_access;
pub mod glob;
pub mod grep;
pub mod list;
pub mod memory;
pub mod react;
pub mod read;
pub mod runs;
pub mod search;
pub mod web_fetch;
pub mod web_search;
