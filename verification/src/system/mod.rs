//! The machine: its memory, its load, its temperature and its GPU resets.
pub mod gpu_watchdog;
pub mod laws;
pub mod memcap;
pub mod stats;
