//! The HTTP surface: what is read from requests and what is answered.
pub mod body_peek;
pub mod field_laws;
pub mod fields;
pub mod folder;
pub mod json;
pub mod laws;
pub mod loop_guard;
pub mod model_scan;
pub mod perf;
pub mod proxy;
pub mod routes;
pub mod scan_laws;
pub mod state;
