//! Extraction of declared dependency names and source roots from Python
//! project manifests (`pyproject.toml`) and flat requirement lists.
pub mod config;
pub mod error;
pub mod groups;
pub mod manifest;
pub mod name_set;
pub mod names;
pub mod requirements;
pub mod tree;
