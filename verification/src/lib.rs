//! bckt: a static site generator for blogs.
//!
//! This crate holds the verified core of bckt: slugs, front matter,
//! URL and path shaping, pagination, tag and archive grouping, date
//! pattern handling and the other rules that decide what a site looks
//! like. The I/O around it lives in the companion application.

pub mod cli;
pub mod commands;
pub mod config;
pub mod content;
pub mod dev;
pub mod digest;
pub mod embeds;
pub mod farcaster;
pub mod disk;
pub mod hash;
pub mod markdown;
pub mod post;
pub mod render;
pub mod search;
pub mod sorted;
pub mod template;
pub mod text;
pub mod theme;
pub mod utils;
