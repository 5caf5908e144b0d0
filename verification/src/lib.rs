//! Configuration resolution for a command-line HTTP request tool.
//!
//! The library turns a parsed profile store, a snapshot of the process
//! environment and command-line overrides into one resolved request
//! configuration: target URL, bearer token, assembled headers and verbosity.
//! Every function is stated over mathematical models of its data (sequences of
//! characters, maps from names to values) and proved against them.

pub mod config;
pub mod environment;
pub mod error;
pub mod headers;
pub mod http;
pub mod named;
pub mod text;
