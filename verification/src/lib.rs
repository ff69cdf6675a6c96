//! A minimal substring search library: a validated run configuration built
//! from a raw argument list, and a line matcher that returns every line of a
//! text containing a query, case-sensitively or case-insensitively.

pub mod casing;
pub mod config;
pub mod lines;
pub mod search;
pub mod substring;

pub use crate::config::Config;
pub use crate::config::ConfigError;
pub use crate::config::Flag;
pub use crate::search::search;
pub use crate::search::search_case_insensitive;
