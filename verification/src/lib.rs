//! bark: header management and directory-tree rendering for source trees.
pub mod text;
pub mod paths;
pub mod config;
pub mod template;
pub mod header;
pub mod header_laws;
pub mod detect;
pub mod walker;
pub mod tree;
pub mod backup;
pub mod processor;
pub mod cli;
pub mod watcher;

pub use config::default_config_toml;
