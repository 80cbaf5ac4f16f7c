//! Routing, placement and self-healing decisions for a local inference gateway.
use vstd::prelude::*;

pub mod adapter;
pub mod adapter_laws;
pub mod api;
pub mod binary;
pub mod config;
pub mod lifecycle;
pub mod orchestrator;
pub mod order;
pub mod paths;
pub mod process;
pub mod system;
pub mod table;
pub mod text;
pub mod text_laws;
pub mod ui;
pub mod units;
pub mod vram;

verus! {

/// Number of bytes in a gibibyte.
pub const GIB: u64 = 1073741824;

} // verus!
