//! Coursework submission client: resolves user-supplied course and assignment
//! identifiers against candidate lists fetched from a learning-management
//! system, and stages configured entry paths (optionally zipped) for upload.

pub mod archive;
pub mod config;
pub mod display;
pub mod paths;
pub mod resolve;
pub mod stage;
pub mod text;
pub mod wrap;
