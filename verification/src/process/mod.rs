//! Backend processes: command lines, ports, and the table of instances.
pub mod argv;
pub mod laws;
pub mod manager;
