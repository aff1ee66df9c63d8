//! Turns a YAML document into a configuration value tree in which every
//! node carries the source it came from.
pub mod convert;
pub mod error;
pub mod node;
pub mod value;
pub mod yaml;
pub mod laws;
