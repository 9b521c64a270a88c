//! The server side: handlers of the HTTP endpoints and their data access.
pub mod dao;
pub mod domains;
pub mod systems;
pub mod metrics;
pub mod search;
pub mod config;
pub mod deployments;
pub mod envs;
pub mod tiers;
pub mod catalogs;
