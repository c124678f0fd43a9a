//! Configuration files, secrets and import/export: the rules, without the file system.
pub mod export;
pub mod migrate;
pub mod secrets;
pub mod history;
