//! Decisions of the orchestrator: naming, placement, eviction, loading.
pub mod aliases;
pub mod allocation;
pub mod change_laws;
pub mod crud;
pub mod device_laws;
pub mod devices;
pub mod engine;
pub mod error_laws;
pub mod errors;
pub mod eviction;
pub mod loading;
pub mod loading_laws;
pub mod placement;
pub mod placement_laws;
pub mod reserve_laws;
pub mod search;
pub mod serving;
pub mod start_laws;
pub mod starting;
pub mod state_laws;
pub mod upkeep;
