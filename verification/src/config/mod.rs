//! What the operator configures: models, presets, aliases, GPU tags, settings.
pub mod alias;
pub mod backend;
pub mod gpu_tags;
pub mod laws;
pub mod migrate;
pub mod model;
pub mod perf;
pub mod preset;
pub mod settings;
pub mod store;
