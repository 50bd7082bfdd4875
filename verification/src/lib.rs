//! Project scaffolding from named templates: template lookup, loading,
//! placeholder substitution and the write plan for a new project directory.
//!
//! The library never touches the filesystem. Callers hand it what they
//! observed (directory listings, file texts, whether a path exists) and carry
//! out the write plan it returns.

pub mod commands;
pub mod config;
pub mod error;
pub mod file_map;
pub mod loading;
pub mod paths;
pub mod plan;
pub mod readback;
pub mod source;
pub mod substitution;
pub mod template;
pub mod text;
