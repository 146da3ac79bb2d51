//! Diagnostics for the Stash VPN client: reads its logs and configuration,
//! derives a list of issues, and renders an HTML report.
pub mod text;
pub mod counter;
pub mod date;
pub mod pattern;
pub mod logs;
pub mod yaml;
pub mod config;
pub mod diagnosis;
pub mod report;
pub mod paths;
pub mod sorting;
