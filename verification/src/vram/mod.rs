//! GPU memory: what is there and what a placement needs.
pub mod llama_fit;
pub mod tracker;
