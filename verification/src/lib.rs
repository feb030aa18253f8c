//! Verified core of an archive tool: safe entry names, collision checks,
//! size limits and the bookkeeping that extraction and compression rely on.

pub mod archive;
pub mod commands;
pub mod create;
pub mod error;
pub mod formats;
pub mod jobs;
pub mod names;
pub mod paths;
pub mod rar;
pub mod text;
pub mod updater;
pub mod verification;
pub mod zip_reader;
