//! Decision and formatting logic of the MAC/hostname reporting agent.
pub mod text;
pub mod report;
pub mod http;
pub mod hostname;
pub mod interfaces;
pub mod port;
pub mod setup;
pub mod json;
