//! A configuration-driven mock HTTP endpoint core: route patterns compiled to
//! matching predicates, a route table built from scanned configuration files,
//! a bounded least-recently-used cache of parsed configurations, a request
//! dispatcher that validates method and headers and renders a response
//! descriptor, and the decision logic of a debounced configuration watcher.

pub mod strutil;
pub mod rex;
pub mod json;
pub mod request;
pub mod cache;
pub mod kvlist;
pub mod app_state;
pub mod file_reader;
pub mod request_handler;
pub mod file_watcher;
pub mod cli;
pub mod swagger;
