//! Locating an executable the way a command shell does: classify the requested
//! name, generate candidate paths, expand them with executable suffixes where the
//! platform needs them, and keep those that a caller-supplied checker accepts.
pub mod path;
pub mod extension;
pub mod filter;
pub mod finder;
