//! Dump a set of environment variables as JSON text.
//!
//! The pipeline has four stages: collect the variables of interest into an
//! [`EnvMap`], encode the mapping as JSON, substitute the JSON into a
//! template, and decide where the rendered text goes.

pub mod collect;
pub mod encode;
pub mod env_map;
pub mod sink;
pub mod text;

pub use collect::collect_env_vars;
pub use encode::{encode_payload, encode_vars, format_output, EncodeError};
pub use env_map::EnvMap;
pub use sink::{replace_in_content, resolve_sink, stdout_text, ConfigError, Sink};
