//! Verified core of an API catalog: spec handlers, catalog statistics,
//! domain and system views, and the small decisions of the server and the CLI.
pub mod text;
pub mod yaml;
pub mod seqs;
pub mod pattern;
pub mod tally;
pub mod app;
pub mod shared;
pub mod dao;
pub mod settings;
pub mod cli;
