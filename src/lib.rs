//! Locate `pyproject.toml` manifests in a directory tree and rewrite them to
//! take their version from version control, add build requirements and set
//! tool defaults, while leaving every untouched part of each document as it
//! was.

pub mod config;
pub mod document;
pub mod manifest;
pub mod walk;
pub mod batch;
pub mod rerun;
