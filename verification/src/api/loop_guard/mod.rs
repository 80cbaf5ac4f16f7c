//! Guards against completions that repeat themselves without end.
pub mod cross_turn;
pub mod detector;
pub mod endpoint;
pub mod laws;
pub mod session;
pub mod sse;
pub mod stream_laws;
pub mod tool_laws;
pub mod watch;
