//! The handlers of each supported specification format.
pub mod asyncapi;
pub mod opanapi;
pub mod proto;
