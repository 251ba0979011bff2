//! What the commands decide.

pub mod config;
pub mod render;
pub mod themes;
pub mod init;
