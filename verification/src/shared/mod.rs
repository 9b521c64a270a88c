//! Configuration shared by the server's modules.
pub mod settings;
