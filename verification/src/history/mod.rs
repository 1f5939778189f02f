//! Command history: what is recorded, found and recalled.

pub mod capture;
pub mod db;
pub mod recall;
pub mod replay;
pub mod search;
pub mod shell_files;
