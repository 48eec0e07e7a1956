//! Helpers for a command-line tool that uploads a directory tree to Google
//! Drive through the `gdrive` program: parsing what `gdrive` prints, deciding
//! what to upload, update or skip, and building the commands to run.

pub mod text;
pub mod query;
pub mod files;
pub mod trash;
pub mod folders;
pub mod share;
pub mod args;
pub mod append;
pub mod walk;
