//! What the dashboard shows.
pub mod figure_laws;
pub mod laws;
pub mod templates;
