//! Verified core of the 12377.cn report-query service: captcha arithmetic,
//! cookie bookkeeping, upstream-response dispatch and the retry state machine.

pub mod text;
pub mod captcha;
pub mod client;
pub mod models;
pub mod cookies;
pub mod error;
pub mod orchestrator;
pub mod config;
pub mod routes;
