//! Resolution of an application's settings from four sources: built-in
//! defaults, a `key=value` configuration text, environment variables and
//! command-line arguments, each later source overriding the earlier ones.
pub mod entry;
pub mod laws;
pub mod resolve;
pub mod settings;
pub mod text;
