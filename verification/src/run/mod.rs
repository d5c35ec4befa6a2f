//! Running the service: what is sent, when, and where it is kept.
pub mod composition;
pub mod cron_scheduler;
pub mod daemon;
pub mod inbound;
pub mod logging;
pub mod session;
pub mod transparency;
